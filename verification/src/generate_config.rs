//! Writing a configuration from a list of assets.

use vstd::prelude::*;

use crate::auto_triangles::GeneratedTriangleUniverse;
use crate::cli::{
    CliRequest, is_command, is_option, unexpected_argument_message, unknown_option_message,
};
use crate::config::{AutoTriangleGenerationConfig, PairRuleConfig, TriangleConfig};
use crate::text::same_text;
use crate::text_map::TextMap;

verus! {

/// What the subcommand is asked to do.
#[derive(Debug, Clone)]
pub struct GenerateConfigArgs {
    pub output_path: String,
    pub include_pair_rules: bool,
}

impl Default for GenerateConfigArgs {
    fn default() -> (r: GenerateConfigArgs)
        ensures
            r@ == default_args(),
    {
        GenerateConfigArgs {
            output_path: "generated_triangles.yaml".to_owned(),
            include_pair_rules: true,
        }
    }
}

/// The texts and choices of [`GenerateConfigArgs`].
pub struct GenerateConfigArgsView {
    pub output_path: Seq<char>,
    pub include_pair_rules: bool,
}

impl View for GenerateConfigArgs {
    type V = GenerateConfigArgsView;

    open spec fn view(&self) -> GenerateConfigArgsView {
        GenerateConfigArgsView {
            output_path: self.output_path@,
            include_pair_rules: self.include_pair_rules,
        }
    }
}

pub open spec fn default_args() -> GenerateConfigArgsView {
    GenerateConfigArgsView { output_path: "generated_triangles.yaml"@, include_pair_rules: true }
}

/// What arguments come to, read one after the other on top of what was read
/// before them.
pub open spec fn args_read(
    args: Seq<Seq<char>>,
    so_far: GenerateConfigArgsView,
    path_set: bool,
) -> Result<GenerateConfigArgsView, Seq<char>>
    decreases args.len(),
{
    if args.len() == 0 {
        Ok(so_far)
    } else if args[0] == "--no-pair-rules"@ {
        args_read(
            args.drop_first(),
            GenerateConfigArgsView { include_pair_rules: false, ..so_far },
            path_set,
        )
    } else if crate::cli::option_like(args[0]) {
        Err(crate::cli::unknown_option(args[0]))
    } else if path_set {
        Err(crate::cli::unexpected_argument(args[0]))
    } else {
        args_read(
            args.drop_first(),
            GenerateConfigArgsView { output_path: args[0], ..so_far },
            true,
        )
    }
}

/// Reads the arguments of the subcommand.
pub fn parse_args(args: &Vec<String>) -> (r: Result<GenerateConfigArgs, String>)
    ensures
        match r {
            Ok(parsed) => args_read(crate::text::texts(args@), default_args(), false) == Ok::<
                GenerateConfigArgsView,
                Seq<char>,
            >(parsed@),
            Err(message) => args_read(crate::text::texts(args@), default_args(), false) == Err::<
                GenerateConfigArgsView,
                Seq<char>,
            >(message@),
        },
{
    let ghost all = crate::text::texts(args@);
    let mut parsed: GenerateConfigArgs = GenerateConfigArgs::default();
    let mut path_set: bool = false;
    let mut i: usize = 0;
    proof {
        assert(all.skip(0) =~= all);
    }
    while i < args.len()
        invariant
            i <= args@.len(),
            all == crate::text::texts(args@),
            args_read(all, default_args(), false) == args_read(all.skip(i as int), parsed@, path_set),
        decreases args@.len() - i,
    {
        let arg: &str = args[i].as_str();
        proof {
            assert(all.skip(i as int)[0] == arg@);
            assert(all.skip(i as int).drop_first() =~= all.skip(i + 1));
        }
        if same_text(arg, "--no-pair-rules") {
            parsed.include_pair_rules = false;
        } else if is_option(arg) {
            return Err(unknown_option_message(arg));
        } else if path_set {
            return Err(unexpected_argument_message(arg));
        } else {
            parsed.output_path = arg.to_owned();
            path_set = true;
        }
        i = i + 1;
    }
    Ok(parsed)
}

/// Whether a request is the one that the arguments of the program make.
pub open spec fn requested(args: Seq<Seq<char>>, request: CliRequest<GenerateConfigArgs>) -> bool {
    let outcome = args_read(args.drop_first(), default_args(), false);
    match request {
        CliRequest::Other => !crate::cli::names_command(args, "generate-config"@),
        CliRequest::Refused(message) => crate::cli::names_command(args, "generate-config"@) && outcome
            == Err::<GenerateConfigArgsView, Seq<char>>(message@),
        CliRequest::Run(parsed) => crate::cli::names_command(args, "generate-config"@) && outcome
            == Ok::<GenerateConfigArgsView, Seq<char>>(parsed@),
    }
}

/// What the arguments of the program ask of this subcommand.
pub fn request_from_cli_args(args: Vec<String>) -> (r: CliRequest<GenerateConfigArgs>)
    ensures
        requested(crate::text::texts(args@), r),
{
    if !is_command(&args, "generate-config") {
        return CliRequest::Other;
    }
    let mut rest: Vec<String> = args;
    let ghost all = crate::text::texts(rest@);
    let _ = rest.remove(0);
    proof {
        assert(crate::text::texts(rest@) =~= all.drop_first());
    }
    match parse_args(&rest) {
        Ok(parsed) => CliRequest::Run(parsed),
        Err(message) => CliRequest::Refused(message),
    }
}

/// What the subcommand writes.
#[derive(Debug)]
pub struct GeneratedConfigFile {
    pub generated_at_ms: u64,
    pub exchange_info_url: String,
    pub asset_count_requested: usize,
    pub used_asset_count: usize,
    pub triangle_count: usize,
    pub depth_stream_count: usize,
    pub depth_streams: Vec<String>,
    pub triangles: Vec<TriangleConfig>,
    pub pair_rules: Option<TextMap<PairRuleConfig>>,
}

/// Refuses a configuration with fewer than three assets.
pub fn check_asset_count(auto_cfg: &AutoTriangleGenerationConfig) -> (r: Result<(), String>)
    ensures
        r is Err <==> auto_cfg.assets@.len() < 3,
        r matches Err(message) ==> message@
            == "config.yaml auto_triangle_generation.assets must contain at least 3 assets"@,
{
    if auto_cfg.assets.len() < 3 {
        return Err(
            "config.yaml auto_triangle_generation.assets must contain at least 3 assets".to_owned(),
        );
    }
    Ok(())
}

/// The configuration that is written for a universe of triangles.
pub fn generated_config(
    args: &GenerateConfigArgs,
    auto_cfg: &AutoTriangleGenerationConfig,
    generated: GeneratedTriangleUniverse,
    generated_at_ms: u64,
) -> (r: GeneratedConfigFile)
    ensures
        r.generated_at_ms == generated_at_ms,
        r.exchange_info_url@ == auto_cfg.exchange_info_url@,
        r.asset_count_requested == auto_cfg.assets@.len(),
        r.used_asset_count == generated.used_assets@.len(),
        r.triangle_count == generated.triangles@.len(),
        r.depth_stream_count == generated.depth_streams@.len(),
        r.depth_streams == generated.depth_streams,
        r.triangles == generated.triangles,
        r.pair_rules == if args.include_pair_rules {
            Some(generated.pair_rules)
        } else {
            None
        },
{
    GeneratedConfigFile {
        generated_at_ms,
        exchange_info_url: auto_cfg.exchange_info_url.clone(),
        asset_count_requested: auto_cfg.assets.len(),
        used_asset_count: generated.used_assets.len(),
        triangle_count: generated.triangles.len(),
        depth_stream_count: generated.depth_streams.len(),
        depth_streams: generated.depth_streams,
        triangles: generated.triangles,
        pair_rules: if args.include_pair_rules {
            Some(generated.pair_rules)
        } else {
            None
        },
    }
}

proof fn lemma_options()
    ensures
        crate::cli::option_like("--no-pair-rules"@),
{
    reveal_strlit("--");
    reveal_strlit("--no-pair-rules");
}

/// How one argument counts: an option without a value makes its own choice and no
/// other, the first other text is the path, and a further one, or an option that
/// there is none of, is refused with its name.
pub proof fn law_arguments_count_one_by_one(
    arg: Seq<char>,
    rest: Seq<Seq<char>>,
    so_far: GenerateConfigArgsView,
    path_set: bool,
)
    ensures
        arg == "--no-pair-rules"@ ==> args_read(seq![arg] + rest, so_far, path_set) == args_read(
            rest,
            GenerateConfigArgsView { include_pair_rules: false, ..so_far },
            path_set,
        ),
        "--"@.is_prefix_of(arg) && arg != "--no-pair-rules"@ ==> args_read(
            seq![arg] + rest,
            so_far,
            path_set,
        ) == Err::<GenerateConfigArgsView, Seq<char>>("unknown option "@ + arg),
        !"--"@.is_prefix_of(arg) && path_set ==> args_read(seq![arg] + rest, so_far, path_set)
            == Err::<GenerateConfigArgsView, Seq<char>>("unexpected positional argument "@ + arg),
        !"--"@.is_prefix_of(arg) && !path_set ==> args_read(seq![arg] + rest, so_far, path_set)
            == args_read(rest, GenerateConfigArgsView { output_path: arg, ..so_far }, true),
{
    lemma_options();
    let args = seq![arg] + rest;
    assert(args[0] == arg);
    assert(args.drop_first() =~= rest);
}

/// What there is without arguments: the choices made so far,
/// which are these at first.
pub proof fn law_choices_without_arguments(so_far: GenerateConfigArgsView, path_set: bool)
    ensures
        args_read(Seq::empty(), so_far, path_set) == Ok::<GenerateConfigArgsView, Seq<char>>(so_far),
        default_args().output_path == "generated_triangles.yaml"@,
        default_args().include_pair_rules == true,
{
}

/// The subcommand is run exactly where the first argument names it and the others
/// can be used, and then with what they come to.
pub proof fn law_subcommand_is_named_first(args: Seq<Seq<char>>, request: CliRequest<GenerateConfigArgs>)
    requires
        requested(args, request),
    ensures
        request is Other <==> args.len() == 0 || args[0] != "generate-config"@,
        request matches CliRequest::Run(config) ==> args_read(args.skip(1), default_args(), false)
            == Ok::<GenerateConfigArgsView, Seq<char>>(config@),
        request matches CliRequest::Refused(message) ==> args_read(
            args.skip(1),
            default_args(),
            false,
        ) == Err::<GenerateConfigArgsView, Seq<char>>(message@),
{
    if args.len() > 0 {
        assert(args.skip(1) =~= args.drop_first());
    }
}

} // verus!
