use arbitrage::clock::unix_ms;
use arbitrage::config;
use arbitrage::config::{AutoTriangleGenerationConfig, PairRuleConfig};
use arbitrage::decimal::Decimal;
use arbitrage::float_key::FloatKey;
use arbitrage::names::sorted_copy;
use arbitrage::ranking::{rank_decimals, rank_floats};
use arbitrage::signal_log::FlushCounter;
use arbitrage::text;
use arbitrage::text_map::TextMap;
use arbitrage::ws::answer_to;

fn num(text: &str) -> Decimal {
    Decimal::parse(text).unwrap()
}

fn key(value: f64) -> FloatKey {
    let bits = value.to_bits() as i64;
    FloatKey { key: if bits < 0 { bits ^ i64::MAX } else { bits } }
}

#[test]
fn decimals_are_read_and_printed_as_written() {
    let d = num("1.50");
    assert_eq!((d.mantissa(), d.scale()), (150, 2));
    assert_eq!(d.to_text(), "1.50");
    assert_eq!(num("-0.001").to_text(), "-0.001");
    assert!(Decimal::parse("1,5").is_none());
    assert!(Decimal::parse("").is_none());
    assert_eq!(num("1.5"), num("1.500"));
    assert_eq!(Decimal::from_parts(150, 29), None);
    assert_eq!(Decimal::from_parts(1 << 96, 0), None);
    assert_eq!(Decimal::from_parts(150, 2), Some(d));
}

#[test]
fn exact_arithmetic_keeps_all_digits() {
    let p = num("1.25").checked_mul(num("0.2")).unwrap();
    assert_eq!((p.mantissa(), p.scale()), (250, 3));
    let z = num("1.25").checked_mul(num("0.00")).unwrap();
    assert_eq!((z.mantissa(), z.scale()), (0, 0));
    let q = num("7.5").checked_div(num("3")).unwrap();
    assert_eq!((q.mantissa(), q.scale()), (25, 1));
    let s = num("1.5").checked_add(num("0.25")).unwrap();
    assert_eq!((s.mantissa(), s.scale()), (175, 2));
    let kept = num("0").checked_add(num("1.50")).unwrap();
    assert_eq!((kept.mantissa(), kept.scale()), (150, 2));
    let d = num("1.5").checked_sub(num("2")).unwrap();
    assert_eq!((d.mantissa(), d.scale()), (-5, 1));
    let f = num("-1.5").floor();
    assert_eq!((f.mantissa(), f.scale()), (-2, 0));
    let g = num("2.75").floor();
    assert_eq!((g.mantissa(), g.scale()), (2, 0));
}

#[test]
fn inexact_arithmetic_rounds_or_gives_none() {
    let third = num("1").checked_div(num("3")).unwrap();
    assert_eq!(third.to_text(), "0.3333333333333333333333333333");
    assert_eq!(num("1").checked_div(num("0.0")), None);
    let big = Decimal::from_parts(79228162514264337593543950335, 0).unwrap();
    assert_eq!(big.checked_mul(num("2")), None);
    assert_eq!(big.checked_add(num("1")), None);
    assert_eq!(num("-1").checked_sub(big).map(|d| d.to_text()), None);
    assert_eq!(big.checked_div(num("0.1")), None);
}

#[test]
fn decimals_are_ordered_by_their_numbers() {
    assert!(num("1.49").below(num("1.5")));
    assert!(!num("1.50").below(num("1.5")));
    assert!(num("-2").below(num("0.1")));
    assert!(num("0.0001").is_positive());
    assert!(!num("0.000").is_positive());
    assert_eq!(num("1.5").max(num("1.50")).scale(), 1);
    assert_eq!(num("1.5").max(num("1.51")).to_text(), "1.51");
}

#[test]
fn float_keys_are_ordered_like_floats() {
    let values = [
        f64::NEG_INFINITY,
        -3.5,
        -1.0,
        -f64::MIN_POSITIVE,
        -0.0,
        0.0,
        1e-300,
        1.0,
        2.5,
        f64::INFINITY,
        f64::NAN,
    ];
    for a in values {
        for b in values {
            assert_eq!(key(a).below(key(b)), a < b);
            assert_eq!(key(a).at_most(key(b)), a <= b);
            assert_eq!(key(a).key < key(b).key, a.total_cmp(&b).is_lt());
            let max = a.max(b);
            let min = a.min(b);
            if max != 0.0 && !max.is_nan() {
                assert_eq!(key(a).max(key(b)), key(max));
            }
            if min != 0.0 && !min.is_nan() {
                assert_eq!(key(a).min(key(b)), key(min));
            }
        }
        assert_eq!(key(a).is_nan(), a.is_nan());
        assert_eq!(key(a).is_finite(), a.is_finite());
    }
    assert_eq!(FloatKey::zero(), key(0.0));
    assert_eq!(FloatKey::one(), key(1.0));
    assert_eq!(FloatKey::infinity(), key(f64::INFINITY));
    assert_eq!(FloatKey::neg_infinity(), key(f64::NEG_INFINITY));
}

#[test]
fn texts_are_cut_and_changed() {
    assert_eq!(text::text_before("a@b@c", '@'), "a");
    assert_eq!(text::split_once("a=b=c", '='), Some(("a".to_string(), "b=c".to_string())));
    assert_eq!(text::split_once("abc", '='), None);
    assert_eq!(text::lowercase("BtC\u{c4}"), "btc\u{c4}");
    assert_eq!(text::uppercase("btc1"), "BTC1");
    assert_eq!(text::trim(" \t\u{a0}\u{3000}a b\n"), "a b");
    assert!(text::is_blank(" \u{2003}\r\n"));
    assert!(!text::is_blank(" . "));
    assert!(text::starts_with("bnbbtc", "bnb"));
    assert!(text::starts_with("bnb", ""));
    assert!(!text::starts_with("bn", "bnb"));
    assert_eq!(text::join(&vec!["a".to_string(), "b".to_string()], " -> "), "a -> b");
    assert_eq!(text::join(&Vec::new(), "/"), "");
    assert_eq!(text::truncate("abcdef", 6), "abcdef");
    assert_eq!(text::truncate("abcdefg", 6), "abc...");
    assert_eq!(text::truncate("abc", 2), "...");
    assert_eq!(text::double_quotes("a\"b"), "a\"\"b");
    assert!(text::text_precedes("ab", "abc"));
    assert!(text::text_precedes("Z", "a"));
    assert!(!text::text_precedes("b", "b"));
}

#[test]
fn whole_numbers_are_read_like_integers() {
    for text in ["0", "+7", "007", "18446744073709551615", "18446744073709551616", "-1", "", "+", "1 ", "x"] {
        assert_eq!(text::read_u64(text), text.parse::<u64>().ok());
        assert_eq!(text::read_usize(text), text.parse::<usize>().ok());
    }
    for n in [0, 9, 10, 12345, u64::MAX] {
        assert_eq!(text::number_text(n), n.to_string());
    }
}

#[test]
fn maps_keep_their_keys_apart_and_in_order() {
    let mut map: TextMap<u32> = TextMap::new();
    map.insert("b".to_string(), 1);
    map.insert("a".to_string(), 2);
    map.insert("b".to_string(), 3);
    assert_eq!(map.len(), 2);
    assert_eq!(map.key_at(0), "b");
    assert_eq!(*map.value_at(0), 3);
    assert_eq!(map.get("a"), Some(&2));
    assert!(!map.contains_key("c"));
    assert_eq!(map.remove("b"), Some(3));
    assert_eq!(map.remove("b"), None);
    assert_eq!(map.len(), 1);
}

#[test]
fn names_are_sorted_each_once() {
    let names: Vec<String> = ["eth", "btc", "eth", "bnb"].iter().map(|n| n.to_string()).collect();
    assert_eq!(sorted_copy(&names), vec!["bnb", "btc", "eth"]);
    assert!(sorted_copy(&[]).is_empty());
}

#[test]
fn rankings_put_the_highest_first_and_keep_ties() {
    let floats = vec![key(1.0), key(f64::NAN), key(-0.0), key(3.0), key(0.0), key(1.0)];
    assert_eq!(rank_floats(&floats), vec![1, 3, 0, 5, 4, 2]);
    let decimals = vec![num("1.0"), num("2"), num("1"), num("-1")];
    assert_eq!(rank_decimals(&decimals), vec![1, 0, 2, 3]);
    assert!(rank_floats(&Vec::new()).is_empty());
}

#[test]
fn defaults_of_the_configuration() {
    assert_eq!(config::default_bind_addr(), "127.0.0.1");
    assert_eq!(config::default_bind_port(), 8000);
    assert_eq!(config::default_reconnect_delay_ms(), 1_500);
    assert!(config::default_signal_log_enabled());
    assert_eq!(config::default_signal_log_path(), "data/triangle_signals.jsonl");
    assert_eq!(config::default_signal_log_channel_capacity(), 2048);
    assert_eq!(config::default_signal_min_profit_bps().key, 8.0_f64.to_bits() as i64);
    assert_eq!(config::default_signal_min_hit_rate().key, 0.2_f64.to_bits() as i64);
    assert_eq!(
        PairRuleConfig::default(),
        PairRuleConfig { fee_bps: None, qty_step: None, min_qty: None, min_notional: None }
    );
    assert!(!AutoTriangleGenerationConfig::default().enabled);
}

#[test]
fn times_stay_in_range() {
    assert_eq!(unix_ms(None), 0);
    assert_eq!(unix_ms(Some(1_700_000_000_000)), 1_700_000_000_000);
    assert_eq!(unix_ms(Some(u128::MAX)), u64::MAX);
}

#[test]
fn clients_get_a_pong_for_a_ping() {
    assert_eq!(answer_to(Some("ping")).as_deref(), Some("pong"));
    assert_eq!(answer_to(Some(" ping\n")).as_deref(), Some("pong"));
    assert_eq!(answer_to(Some("PING")), None);
    assert_eq!(answer_to(Some("")), None);
    assert_eq!(answer_to(None), None);
}

#[test]
fn every_thirty_second_line_is_written_out() {
    let mut counter = FlushCounter::new();
    for line in 1..=96 {
        assert_eq!(counter.line_written(), line % 32 == 0);
    }
}

#[test]
fn numbers_are_printed_with_all_of_their_digits() {
    for text in ["0", "7", "-7", "120", "0.05", "-0.05", "0.00", "12.30", "-123.456"] {
        assert_eq!(num(text).to_text(), text);
    }
    assert_eq!(Decimal::new(5, 28).to_text(), "0.0000000000000000000000000005");
    let largest = Decimal::from_parts((1 << 96) - 1, 0).unwrap();
    assert_eq!(largest.to_text(), "79228162514264337593543950335");
}

// Quotients that are decimal numbers, made from the number and the divisor.
#[test]
fn quotients_that_fit_are_exact() {
    let mut seed: u128 = 0x9E37_79B9_7F4A_7C15;
    let mut next = || {
        seed = seed.wrapping_mul(0x5851_F42D_4C95_7F2D).wrapping_add(0x1405_7B7E_F767_814F);
        (seed >> 16) as i128 & ((1 << 96) - 1)
    };
    let mut found = 0;
    for i in 0..40_000u32 {
        let quotient = Decimal::from_parts(next() >> (i % 97), (next() % 29) as u32).unwrap();
        let divisor = Decimal::from_parts((next() >> (next() % 97)) | 1, (next() % 29) as u32);
        let divisor = divisor.unwrap();
        let mantissa = match quotient.mantissa().checked_mul(divisor.mantissa()) {
            Some(mantissa) => mantissa,
            None => continue,
        };
        let scale = quotient.scale() + divisor.scale();
        let Some(dividend) = Decimal::from_parts(mantissa, scale) else {
            continue;
        };
        found += 1;
        assert_eq!(dividend.checked_div(divisor), Some(quotient));
    }
    assert!(found > 1_000);
    for divisor in 1..=64i64 {
        for dividend in 1..=64i64 {
            if 10_000_000 % divisor != 0 {
                continue;
            }
            let quotient = num(&dividend.to_string()).checked_div(num(&divisor.to_string())).unwrap();
            let back = quotient.checked_mul(Decimal::from_i64(divisor)).unwrap();
            assert_eq!(back, Decimal::from_i64(dividend));
        }
    }
    let largest = "7.9228162514264337593543950335";
    let tenth = num(largest).checked_div(num("10")).unwrap();
    assert_eq!(tenth, num("0.7922816251426433759354395034"));
    assert_eq!(num("7922816251426433759354395033.5").checked_div(num("0.5")), Some(num("15845632502852867518708790067")));
}

#[test]
fn zeros_keep_their_minus_sign() {
    let amount = num("0.00000000012345678901");
    let tiny = num("-0.0000000000000000000000000001");
    let product = amount.checked_mul(tiny).unwrap();
    assert_eq!((product.mantissa(), product.scale()), (0, 28));
    assert!(product.is_sign_negative());
    assert_eq!(product.to_text(), "-0.0000000000000000000000000000");
    assert_eq!(product, Decimal::zero());
    assert!(!product.below(Decimal::zero()) && !product.is_positive());
    let read = Decimal::parse(&product.to_text()).unwrap();
    assert_eq!((read.mantissa(), read.scale(), read.is_sign_negative()), (0, 28, false));
    let zero = num("0.00");
    assert_eq!(zero.checked_add(product).unwrap().to_text(), product.to_text());
    assert_eq!(product.checked_add(zero).unwrap().to_text(), "0.00");
    assert_eq!(zero.checked_sub(product).unwrap().to_text(), product.to_text());
    assert_eq!(num("1.5").checked_add(product).unwrap().to_text(), "1.5");
    assert_eq!(product.checked_sub(num("1.5")).unwrap().to_text(), "-1.5");
    assert_eq!(product.floor().to_text(), "-0");
    assert_eq!(product.checked_mul(num("2")).unwrap().to_text(), "0");
    assert_eq!(product.checked_div(num("2")).unwrap().to_text(), "0");
    for text in ["-0", "-0.00", "-0.4e-28", "0.4e-28", "-1e-28"] {
        let outside = text.parse::<rust_decimal::Decimal>().unwrap();
        assert_eq!(num(text).to_text(), outside.to_string());
    }
    assert_eq!(Decimal::from_signed_parts(0, 2, true).unwrap().to_text(), "-0.00");
    assert_eq!(Decimal::from_signed_parts(5, 2, true).unwrap().to_text(), "0.05");
}

#[test]
fn whole_parts_are_not_above_the_number() {
    let mut seed: u128 = 0x2545_F491_4F6C_DD1D;
    for i in 0..20_000u32 {
        seed = seed.wrapping_mul(0x5851_F42D_4C95_7F2D).wrapping_add(0x1405_7B7E_F767_814F);
        let mantissa = ((seed >> 16) as i128 & ((1 << 96) - 1)) >> (i % 97);
        let mantissa = if i % 2 == 0 { mantissa } else { -mantissa };
        let scale = (seed >> 112) as u32 % 29;
        let outside = rust_decimal::Decimal::from_i128_with_scale(mantissa, scale).floor();
        let floor = Decimal::from_parts(mantissa, scale).unwrap().floor();
        assert_eq!((floor.mantissa(), floor.scale()), (outside.mantissa(), outside.scale()));
        assert_eq!(floor.to_text(), outside.to_string());
    }
    assert_eq!(num("-0.1").floor().to_text(), "-1");
    assert_eq!(num("-3.00").floor().to_text(), "-3");
}

#[test]
fn quotients_are_off_by_half_a_last_digit_at_most() {
    for dividend in 1..200i128 {
        for divisor in 1..200i128 {
            let quotient = Decimal::from_parts(dividend, 0)
                .unwrap()
                .checked_div(Decimal::from_parts(divisor, 0).unwrap())
                .unwrap();
            let exact = dividend * 10i128.pow(quotient.scale());
            let missed = (quotient.mantissa() * divisor - exact).abs();
            assert!(2 * missed <= divisor);
        }
    }
}
