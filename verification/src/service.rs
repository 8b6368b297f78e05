//! What the service does with its configuration when it starts.

use vstd::prelude::*;

use crate::config::AppConfig;
use crate::text::{concat2, join, number_text};

verus! {

/// The name of the stream of the best offers of a pair.
pub open spec fn stream_name(pair: Seq<char>, update_interval: u32, results_limit: u32) -> Seq<char> {
    pair + "@depth"@ + crate::text::digits(results_limit as nat) + "@"@ + crate::text::digits(
        update_interval as nat,
    ) + "ms"@
}

/// The names of the streams of the best offers of pairs.
pub open spec fn stream_names(pairs: Seq<String>, update_interval: u32, results_limit: u32) -> Seq<
    Seq<char>,
> {
    pairs.map_values(|pair: String| stream_name(pair@, update_interval, results_limit))
}

fn depth_stream_name(pair: &str, update_interval: u32, results_limit: u32) -> (r: String)
    ensures
        r@ == stream_name(pair@, update_interval, results_limit),
{
    let mut out: String = concat2(pair, "@depth");
    out.append(number_text(results_limit as u64).as_str());
    out.append("@");
    out.append(number_text(update_interval as u64).as_str());
    out.append("ms");
    out
}

/// The address of the combined stream of the best offers of pairs.
pub fn get_binance_streams_url(
    depth_streams: &[String],
    update_interval: u32,
    results_limit: u32,
) -> (r: String)
    ensures
        r@ == "wss://stream.binance.com:9443/stream?streams="@ + crate::text::joined(
            stream_names(depth_streams@, update_interval, results_limit),
            "/"@,
        ),
{
    let mut names: Vec<String> = Vec::new();
    for i in 0..depth_streams.len()
        invariant
            names@.len() == i,
            forall|j: int|
                0 <= j < i ==> (#[trigger] names@[j])@ == stream_name(
                    depth_streams@[j]@,
                    update_interval,
                    results_limit,
                ),
    {
        names.push(depth_stream_name(depth_streams[i].as_str(), update_interval, results_limit));
    }
    proof {
        assert(crate::text::texts(names@) =~= stream_names(
            depth_streams@,
            update_interval,
            results_limit,
        ));
    }
    concat2("wss://stream.binance.com:9443/stream?streams=", join(&names, "/").as_str())
}

/// The address that the service listens on, as a text.
pub fn server_address(config: &AppConfig) -> (r: String)
    ensures
        r@ == config.bind_addr@ + ":"@ + crate::text::digits(config.bind_port as nat),
{
    let mut out: String = concat2(config.bind_addr.as_str(), ":");
    out.append(number_text(config.bind_port as u64).as_str());
    out
}

/// How many signals can wait to be written: at least 64.
pub fn signal_log_capacity(config: &AppConfig) -> (r: usize)
    ensures
        r == if config.signal_log_channel_capacity < 64 {
            64
        } else {
            config.signal_log_channel_capacity
        },
{
    if config.signal_log_channel_capacity < 64 {
        64
    } else {
        config.signal_log_channel_capacity
    }
}

/// How long to wait before connecting anew: at least 250 milliseconds.
pub fn reconnect_delay_ms(config: &AppConfig) -> (r: u64)
    ensures
        r == if config.reconnect_delay_ms < 250 {
            250
        } else {
            config.reconnect_delay_ms
        },
{
    if config.reconnect_delay_ms < 250 {
        250
    } else {
        config.reconnect_delay_ms
    }
}

/// The streams of pairs: one for each pair, in their order, named after the pair,
/// the number of offers and the interval.
pub proof fn law_streams_name_their_pairs(
    pairs: Seq<String>,
    update_interval: u32,
    results_limit: u32,
    i: int,
)
    requires
        0 <= i < pairs.len(),
        !pairs[i]@.contains('@'),
    ensures
        stream_names(pairs, update_interval, results_limit).len() == pairs.len(),
        stream_names(pairs, update_interval, results_limit)[i] == pairs[i]@ + "@depth"@
            + crate::text::digits(results_limit as nat) + "@"@ + crate::text::digits(
            update_interval as nat,
        ) + "ms"@,
        crate::text::before(stream_names(pairs, update_interval, results_limit)[i], '@')
            == pairs[i]@,
{
    reveal_strlit("@depth");
    let name = stream_names(pairs, update_interval, results_limit)[i];
    let pair = pairs[i]@;
    crate::text::lemma_before(name, '@');
    let b = crate::text::before(name, '@');
    assert(name[pair.len() as int] == '@');
    assert(name.contains('@'));
    if b.len() < pair.len() {
        assert(name[b.len() as int] == pair[b.len() as int]);
        assert(pair.contains('@'));
    }
    if b.len() > pair.len() {
        assert(b[pair.len() as int] == name[pair.len() as int]);
        assert(b.contains('@'));
    }
    assert(b =~= pair);
}

} // verus!
