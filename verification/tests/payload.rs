use fraud_score::api::{
    process_request, score_body, score_body_fast_bucket, ApiClassifier, ApiParser, ApiSetup,
    Engine, Unscored,
};
use fraud_score::classifier::{
    classify_approved, decide_by_rule, is_risky_mcc, is_safe_mcc, known_merchant_in_array,
    mcc_risk, parse_fast_fields, read_case, read_numbers, single_at_most, Numbers, TreeCase,
    ABOUT_HALF, FIFTY, FIVE, FIVE_HUNDRED, FIVE_THOUSAND, HUNDRED_FIFTY, ONE, SIX, THREE,
};
use fraud_score::datetime::{parse_iso8601, FastDateTime};
use fraud_score::fast_payload::{
    fast_parse_mcc, parse_payload_to_i16_and_key, Constants, Quantity, Vec16I,
};
use fraud_score::head::Route;
use fraud_score::payload::fields::{known_merchants_contains, read_fields, Reading};
use fraud_score::payload::value::{
    parse_array_at, parse_bool_at, parse_f64_at, parse_number_at, parse_str_at, parse_string_at,
    parse_u32_at, Kind,
};
use fraud_score::scorer::rinha_score_body;
use fraud_score::scoring::{handoff_response_for_bucket, BAD_REQUEST_RESPONSE, READY_OK_RESPONSE};

const SAFE: &[u8] = br#"{"transaction":{"amount":41.12,"installments":2,"requested_at":"2026-03-11T18:45:53Z"},"customer":{"avg_amount":82.24,"tx_count_24h":3,"known_merchants":["MERC-003","MERC-016"]},"merchant":{"id":"MERC-016","mcc":"5411","avg_amount":60.25},"terminal":{"is_online":false,"card_present":true,"km_from_home":29.23},"last_transaction":null}"#;

const RECORDED: &[u8] = br#"{"id":"tx-1641912674","transaction":{"amount":441.59,"installments":1,"requested_at":"2027-07-09T16:31:06Z"},"customer":{"avg_amount":883.18,"tx_count_24h":1,"known_merchants":["MERC-004","MERC-017"]},"merchant":{"id":"MERC-004","mcc":"5411","avg_amount":302.78},"terminal":{"is_online":false,"card_present":true,"km_from_home":33.8814492067},"last_transaction":{"timestamp":"2027-06-04T14:14:22Z","km_from_current":18.4353521556}}"#;

const RISKY: &[u8] = br#"{"transaction":{"amount":9000,"installments":10,"requested_at":"2026-03-11T03:45:53Z"},"customer":{"avg_amount":82.24,"tx_count_24h":12,"known_merchants":["MERC-003"]},"merchant":{"id":"MERC-099","mcc":"7995","avg_amount":60.25},"terminal":{"is_online":true,"card_present":false,"km_from_home":700.5},"last_transaction":null}"#;

fn single(text: &[u8]) -> u32 {
    let text = std::str::from_utf8(text).unwrap();
    text.parse::<f32>().unwrap().to_bits()
}

fn divide(a: u32, b: u32) -> u32 {
    (f32::from_bits(a) / f32::from_bits(b)).to_bits()
}

fn double(text: &[u8]) -> u64 {
    let text = std::str::from_utf8(text).unwrap();
    text.parse::<f64>().unwrap().to_bits()
}

fn quantize01(value: f64) -> i16 {
    (value.clamp(0.0, 1.0) * 10000.0).round() as i16
}

fn quantize(quantity: Quantity) -> i16 {
    let real = f64::from_bits;
    quantize01(match quantity {
        Quantity::Amount(amount) => real(amount) / 10000.0,
        Quantity::Installments(count) => count as f64 / 12.0,
        Quantity::AmountOverAverage(amount, average) => (real(amount) / real(average)) / 10.0,
        Quantity::SecondsSinceLast(seconds) => (seconds as f64 / 60.0) / 1440.0,
        Quantity::KmFromCurrent(km) | Quantity::KmFromHome(km) => real(km) / 1000.0,
        Quantity::TxCount(count) => count as f64 / 20.0,
        Quantity::MerchantAverage(average) => real(average) / 10000.0,
    })
}

fn constants() -> Constants {
    let mut risks = vec![5000i16; 10000];
    for (mcc, risk) in [(5411, 1500), (5812, 3000), (5912, 2000), (5944, 4500), (7801, 8000), (7802, 7500), (7995, 8500), (4511, 3500), (5311, 2500), (5999, 5000)] {
        risks[mcc] = risk;
    }
    Constants::new(risks).unwrap()
}

fn never(_: &TreeCase<'_>, _: &Numbers) -> bool {
    panic!("a clear case does not need the model")
}

/// The same vector, worked out from the parsed document.
fn vectorize(body: &[u8]) -> (Vec16I, u16) {
    let doc: serde_json::Value = serde_json::from_slice(body).unwrap();
    let real = |a: &str, b: &str| doc[a][b].as_f64().unwrap();
    let text = |a: &str, b: &str| doc[a][b].as_str().unwrap().to_string();
    let at = parse_iso8601(text("transaction", "requested_at").as_bytes()).unwrap();
    let mut out = [0i16; 16];
    out[0] = quantize01(real("transaction", "amount") / 10000.0);
    out[1] = quantize01(real("transaction", "installments") / 12.0);
    out[2] = if real("customer", "avg_amount") == 0.0 {
        10000
    } else {
        quantize01(real("transaction", "amount") / real("customer", "avg_amount") / 10.0)
    };
    out[3] = quantize01(at.hour as f64 / 23.0);
    out[4] = quantize01(at.day_of_week as f64 / 6.0);
    let last = &doc["last_transaction"];
    if last.is_null() {
        out[5] = -10000;
        out[6] = -10000;
    } else {
        let before = parse_iso8601(last["timestamp"].as_str().unwrap().as_bytes()).unwrap();
        let seconds = (at.epoch_seconds - before.epoch_seconds).abs();
        out[5] = quantize01(seconds as f64 / 60.0 / 1440.0);
        out[6] = quantize01(last["km_from_current"].as_f64().unwrap() / 1000.0);
    }
    out[7] = quantize01(real("terminal", "km_from_home") / 1000.0);
    out[8] = quantize01(real("customer", "tx_count_24h") / 20.0);
    let online = doc["terminal"]["is_online"].as_bool().unwrap();
    let present = doc["terminal"]["card_present"].as_bool().unwrap();
    let id = text("merchant", "id");
    let known = doc["customer"]["known_merchants"].as_array().unwrap().iter().any(|m| m.as_str() == Some(&id));
    out[9] = if online { 10000 } else { 0 };
    out[10] = if present { 10000 } else { 0 };
    out[11] = if known { 0 } else { 10000 };
    out[12] = constants().mcc_risk_i16[text("merchant", "mcc").parse::<usize>().unwrap()];
    out[13] = quantize01(real("merchant", "avg_amount") / 10000.0);
    let sent = !last.is_null() as u16;
    let key = (online as u16) << 12 | (present as u16) << 11 | (!known as u16) << 10 | sent << 9 | sent << 8 | (at.hour as u16) << 3 | at.day_of_week as u16;
    (out, key)
}

#[test]
fn classifier_instantiates_tree_predictor() {
    assert!(classify_approved(SAFE, &single, &divide, &|_: &TreeCase<'_>, _: &Numbers| true).is_some());
}

#[test]
fn ffi_matches_classify_approved() {
    let expected = match classify_approved(SAFE, &single, &divide, &never) {
        Some(true) => 0u8,
        Some(false) => 5u8,
        None => 255u8,
    };
    assert_eq!(rinha_score_body(SAFE, &single, &divide, &never), expected);
}

#[test]
fn ffi_null_and_empty_are_parse_errors() {
    assert_eq!(rinha_score_body(&[], &single, &divide, &never), 255);
    assert_eq!(rinha_score_body(b"", &single, &divide, &never), 255);
    assert_eq!(rinha_score_body(b"not json", &single, &divide, &never), 255);
}

#[test]
fn fast_payload_matches_vectorize() {
    let constants = constants();
    assert_eq!(
        parse_payload_to_i16_and_key(RECORDED, &constants, &double, &quantize).unwrap(),
        vectorize(RECORDED)
    );
}

#[test]
fn vectors_of_other_bodies_match_too() {
    let constants = constants();
    for body in [SAFE, RISKY] {
        assert_eq!(parse_payload_to_i16_and_key(body, &constants, &double, &quantize).unwrap(), vectorize(body));
    }
    let (vector, key) = parse_payload_to_i16_and_key(RECORDED, &constants, &double, &quantize).unwrap();
    assert_eq!(vector, [442, 833, 500, 6957, 6667, 10000, 184, 339, 500, 0, 10000, 0, 1500, 303, 0, 0]);
    assert_eq!(key, 1 << 11 | 1 << 9 | 1 << 8 | 16 << 3 | 4);
}

#[test]
fn bodies_that_do_not_fit_have_no_vector() {
    let constants = constants();
    let text = std::str::from_utf8(RECORDED).unwrap();
    for (from, to) in [
        ("\"amount\":441.59", "\"amount\": 441.59"),
        ("441.59", "441.5.9"),
        ("441.59", "-"),
        ("\"installments\":1", "\"installments\":1.0"),
        ("\"installments\":1", "\"installments\":4294967296"),
        ("2027-07-09", "2027-02-29"),
        ("2027-06-04T14", "2027-06-04T24"),
        ("[\"MERC-004\",\"MERC-017\"]", "null"),
        ("\"is_online\":false", "\"is_online\":0"),
        ("18.4353521556", "x"),
        ("\"last_transaction\":{", "\"last_transaction\":["),
    ] {
        let changed = text.replacen(from, to, 1);
        assert_ne!(changed, text);
        assert_eq!(parse_payload_to_i16_and_key(changed.as_bytes(), &constants, &double, &quantize), None, "{to}");
    }
    let mut bytes = RECORDED.to_vec();
    let id = text.rfind("MERC-004").unwrap();
    bytes[id] = 0xff;
    assert_eq!(parse_payload_to_i16_and_key(&bytes, &constants, &double, &quantize), None);
    // A zero average counts as the largest ratio, whatever its sign.
    for zero in ["0", "-0.0", "0e9"] {
        let changed = text.replacen("883.18", zero, 1);
        let (vector, _) = parse_payload_to_i16_and_key(changed.as_bytes(), &constants, &double, &quantize).unwrap();
        assert_eq!(vector[2], 10000);
    }
    // An unknown category has a middle risk.
    let changed = text.replacen("5411", "54x1", 1);
    let (vector, _) = parse_payload_to_i16_and_key(changed.as_bytes(), &constants, &double, &quantize).unwrap();
    assert_eq!(vector[12], 5000);
    assert!(Constants::new(vec![0; 9999]).is_none());
}

#[test]
fn categories_are_four_digits() {
    assert_eq!(fast_parse_mcc(b"0742"), 742);
    assert_eq!(fast_parse_mcc(b"9999"), 9999);
    assert_eq!(fast_parse_mcc(b"74"), 10000);
    assert_eq!(fast_parse_mcc(b"07421"), 10000);
    assert_eq!(fast_parse_mcc(b"07 2"), 10000);
}

#[test]
fn points_in_time_are_read() {
    let at = |text: &str| parse_iso8601(text.as_bytes());
    assert_eq!(at("1970-01-01T00:00:00Z"), Some(FastDateTime { hour: 0, day_of_week: 3, epoch_seconds: 0 }));
    assert_eq!(at("2026-03-11T18:45:53Z"), Some(FastDateTime { hour: 18, day_of_week: 2, epoch_seconds: 1773254753 }));
    assert_eq!(at("2000-02-29T23:59:59Z"), Some(FastDateTime { hour: 23, day_of_week: 1, epoch_seconds: 951868799 }));
    assert_eq!(at("1969-12-31T23:59:59Z").unwrap().epoch_seconds, -1);
    assert_eq!(at("0000-01-01T00:00:00Z").unwrap().epoch_seconds, -62_167_219_200);
    assert_eq!(at("9999-12-31T23:59:59Z").unwrap().epoch_seconds, 253_402_300_799);
    for text in [
        "", "2026-03-11", "2026-03-11T18:45:53", "2026-03-11T18:45:53Z ", "2026-03-11 18:45:53Z", "2026-13-11T18:45:53Z",
        "2026-00-11T18:45:53Z", "2026-03-00T18:45:53Z", "2026-04-31T18:45:53Z", "1900-02-29T18:45:53Z", "2026-03-11T24:00:00Z",
        "2026-03-11T18:60:53Z", "2026-03-11T18:45:60Z", "2026-03-11T18:45:5xZ", "+026-03-11T18:45:53Z",
    ] {
        assert_eq!(at(text), None, "{text}");
    }
    // The next day is a day later and the next day of the week.
    let eve = at("2023-12-31T12:00:00Z").unwrap();
    let day = at("2024-01-01T12:00:00Z").unwrap();
    assert_eq!(day.epoch_seconds - eve.epoch_seconds, 86400);
    assert_eq!((eve.day_of_week, day.day_of_week), (6, 0));
}

#[test]
fn values_end_where_they_should() {
    assert_eq!(parse_number_at(b"-12.5e-3,", 0), Some(8));
    assert_eq!(parse_number_at(b"+.5}", 0), Some(3));
    assert_eq!(parse_number_at(b"7.", 0), Some(2));
    assert_eq!(parse_number_at(b".", 0), None);
    assert_eq!(parse_number_at(b"-", 0), None);
    assert_eq!(parse_number_at(b"1e", 0), None);
    assert_eq!(parse_number_at(b"1e+", 0), None);
    assert_eq!(parse_number_at(b"1-2", 0), Some(1));
    assert_eq!(parse_f64_at(b"1-2", 0), None);
    assert_eq!(parse_f64_at(b"x12.5e3,", 1), Some(7));
    assert_eq!(parse_f64_at(b"", 0), None);
    assert_eq!(parse_u32_at(b"4294967295,", 0), Some((u32::MAX, 10)));
    assert_eq!(parse_u32_at(b"4294967296,", 0), None);
    assert_eq!(parse_u32_at(b",", 0), None);
    assert_eq!(parse_string_at(br#""a\"b"c"#, 0), Some((&br#"a\"b"#[..], 6)));
    assert_eq!(parse_string_at(br#""""#, 0), Some((&b""[..], 2)));
    assert_eq!(parse_string_at(br#""a"#, 0), None);
    assert_eq!(parse_string_at(b"a", 0), None);
    assert_eq!(parse_string_at(b"a", 9), None);
    assert_eq!(parse_str_at(br#""a\"b"c"#, 0), Some((&br#"a\"#[..], 4)));
    assert_eq!(parse_str_at(b"\"\xff\"", 0), None);
    assert_eq!(parse_array_at(b"[1,2]]", 0), Some((&b"1,2"[..], 5)));
    assert_eq!(parse_array_at(b"[1", 0), None);
    assert_eq!(parse_bool_at(b"true", 0), Some((true, 4)));
    assert_eq!(parse_bool_at(b"xfalse", 1), Some((false, 6)));
    assert_eq!(parse_bool_at(b"tru", 0), None);
}

#[test]
fn fields_are_read_back() {
    let fields = parse_fast_fields(RECORDED).unwrap();
    assert_eq!(fields.amount, b"441.59");
    assert_eq!(fields.installments, b"1");
    assert_eq!(fields.requested_at, b"2027-07-09T16:31:06Z");
    assert_eq!(fields.customer_avg, b"883.18");
    assert_eq!(fields.tx_count_24h, b"1");
    assert_eq!(fields.known_merchants, br#""MERC-004","MERC-017""#);
    assert_eq!(fields.merchant_id, b"MERC-004");
    assert_eq!(fields.merchant_mcc, b"5411");
    assert_eq!(fields.merchant_avg, b"302.78");
    assert!(!fields.is_online);
    assert!(fields.card_present);
    assert_eq!(fields.km_from_home, b"33.8814492067");
    let last = fields.last.unwrap();
    assert_eq!(last.timestamp, b"2027-06-04T14:14:22Z");
    assert_eq!(last.km_from_current, b"18.4353521556");
    assert!(parse_fast_fields(SAFE).unwrap().last.is_none());
    assert!(parse_fast_fields(b"{}").is_none());
    // Counts may be any number for the classifier, but not for the vector.
    let text = std::str::from_utf8(SAFE).unwrap().replacen("\"installments\":2", "\"installments\":2.5", 1);
    assert_eq!(parse_fast_fields(text.as_bytes()).unwrap().installments, b"2.5");
    let strict = Reading { number: Kind::Real, count: Kind::Count, text: Kind::Plain };
    assert!(read_fields(text.as_bytes(), strict).is_none());
}

#[test]
fn known_merchants_are_whole_names() {
    let list = br#""MERC-003", "MERC-016""#;
    assert!(known_merchants_contains(list, b"MERC-016"));
    assert!(known_merchant_in_array(list, b"MERC-003"));
    assert!(!known_merchants_contains(list, b"MERC-01"));
    assert!(!known_merchants_contains(list, b""));
    assert!(!known_merchants_contains(br#""MERC-003"#, b"MERC-003"));
    assert!(known_merchants_contains(br#""""#, b""));
    // What stands between two names is none.
    assert!(!known_merchants_contains(list, b", "));
}

#[test]
fn the_order_of_bit_patterns_is_that_of_the_numbers() {
    let numbers = [f32::NEG_INFINITY, -5000.0, -1.5, -0.0, 0.0, 1e-30, 0.50001, 3.0, 49.99, 500.0, 1e30, f32::INFINITY, f32::NAN, -f32::NAN];
    for a in numbers {
        for b in numbers {
            assert_eq!(single_at_most(a.to_bits(), b.to_bits()), a <= b, "{a} {b}");
        }
    }
    let named = [(ONE, 1.0f32), (THREE, 3.0), (FIVE, 5.0), (SIX, 6.0), (FIFTY, 50.0), (HUNDRED_FIFTY, 150.0), (FIVE_HUNDRED, 500.0), (FIVE_THOUSAND, 5000.0), (ABOUT_HALF, 0.50001)];
    for (bits, number) in named {
        assert_eq!(bits, number.to_bits());
    }
}

#[test]
fn clear_cases_are_decided_by_rule() {
    assert_eq!(classify_approved(SAFE, &single, &divide, &never), Some(true));
    assert_eq!(classify_approved(RISKY, &single, &divide, &never), Some(false));
    assert_eq!(rinha_score_body(RISKY, &single, &divide, &never), 5);
    let text = std::str::from_utf8(SAFE).unwrap();
    // One step over a limit, and the model is asked.
    for (from, to) in [
        ("41.12", "501"),
        ("41.12", "41.2"),
        ("\"installments\":2", "\"installments\":4"),
        ("\"tx_count_24h\":3", "\"tx_count_24h\":6"),
        ("MERC-016\",\"mcc", "MERC-017\",\"mcc"),
        ("29.23", "50.1"),
        ("5411", "7995"),
    ] {
        let changed = text.replacen(from, to, 1);
        assert_ne!(changed, text);
        for fraud in [true, false] {
            let predict = |_: &TreeCase<'_>, _: &Numbers| fraud;
            assert_eq!(classify_approved(changed.as_bytes(), &single, &divide, &predict), Some(!fraud));
        }
    }
    // The time of the transaction before has to be one.
    let changed = text.replacen("null", r#"{"timestamp":"yesterday","km_from_current":1}"#, 1);
    assert_eq!(classify_approved(changed.as_bytes(), &single, &divide, &never), None);
}

#[test]
fn the_model_is_given_the_case() {
    let case = read_case(RECORDED).unwrap();
    assert_eq!(case.seconds_since_last, Some(3_032_204));
    assert!(case.merchant_known);
    assert_eq!(case.risk_hundredths, 15);
    let numbers = read_numbers(&case, &single, &divide);
    assert_eq!(f32::from_bits(numbers.amount), 441.59);
    assert_eq!(f32::from_bits(numbers.amount_ratio), 441.59f32 / 883.18);
    assert_eq!(numbers.km_from_current.map(f32::from_bits), Some(18.4353521556));
    assert_eq!(decide_by_rule(&case, &numbers), Some(true));
    // An average that is not above zero counts as one, and the time before does not run backwards.
    let text = std::str::from_utf8(RECORDED).unwrap().replacen("883.18", "-3", 1).replacen("2027-06-04", "2027-08-04", 1);
    let case = read_case(text.as_bytes()).unwrap();
    assert_eq!(case.seconds_since_last, Some(0));
    let numbers = read_numbers(&case, &single, &divide);
    assert_eq!(f32::from_bits(numbers.amount_ratio), 441.59);
}

#[test]
fn categories_have_their_risks() {
    let risks: [(&[u8], u8); 11] = [
        (b"5411", 15), (b"5812", 30), (b"5912", 20), (b"5944", 45), (b"7801", 80), (b"7802", 75), (b"7995", 85), (b"4511", 35),
        (b"5311", 25), (b"5999", 50), (b"", 50),
    ];
    for (mcc, risk) in risks {
        assert_eq!(mcc_risk(mcc), risk);
        assert!(!(is_safe_mcc(mcc) && is_risky_mcc(mcc)));
    }
    assert!(is_safe_mcc(b"5311"));
    assert!(!is_safe_mcc(b"5944"));
    assert!(is_risky_mcc(b"7802"));
    assert!(!is_risky_mcc(b"5944"));
}

#[test]
fn bodies_are_scored_as_the_setup_says() {
    let constants = constants();
    let engine = Engine {
        read: single,
        divide,
        predict: |_: &TreeCase<'_>, _: &Numbers| true,
        number: double,
        quantize,
        search_vector: |_: &Vec16I, key: u16| if key & 1 == 0 { 1u8 } else { 3 },
        search_body: |body: &[u8]| if body.starts_with(b"{") { Some(2u8) } else { None },
    };
    let setup = ApiSetup { perf: false, log_search_avg: false, parser: ApiParser::Fast, classifier: ApiClassifier::Tree, has_index: true };
    // The classifier is asked first.
    assert_eq!(score_body(&setup, &engine, &constants, SAFE), Ok(0));
    assert_eq!(score_body_fast_bucket(&setup, &engine, &constants, RISKY), Ok(5));
    // A body that it cannot read goes to the index; what the fast parser cannot read, to the slow one.
    assert_eq!(score_body(&setup, &engine, &constants, b"{}"), Ok(2));
    assert_eq!(score_body(&setup, &engine, &constants, b"[]"), Err(Unscored));
    let alone = ApiSetup { has_index: false, classifier: ApiClassifier::TreeOnly, ..setup };
    assert_eq!(score_body(&alone, &engine, &constants, b"{}"), Err(Unscored));
    assert_eq!(score_body_fast_bucket(&alone, &engine, &constants, SAFE), Ok(0));
    let off = ApiSetup { classifier: ApiClassifier::Off, ..setup };
    assert_eq!(score_body(&off, &engine, &constants, SAFE), Ok(1));
    assert_eq!(score_body(&ApiSetup { parser: ApiParser::Serde, ..off }, &engine, &constants, SAFE), Ok(2));
    assert_eq!(score_body_fast_bucket(&ApiSetup { parser: ApiParser::Serde, ..off }, &engine, &constants, SAFE), Ok(1));
    assert_eq!(score_body(&ApiSetup { has_index: false, ..off }, &engine, &constants, SAFE), Err(Unscored));
    // Measured requests are not classified.
    assert_eq!(score_body(&ApiSetup { perf: true, ..setup }, &engine, &constants, SAFE), Ok(1));
    assert_eq!(process_request(&setup, &engine, &constants, RISKY, Route::FraudScore), handoff_response_for_bucket(5));
    assert_eq!(process_request(&setup, &engine, &constants, b"[]", Route::FraudScore), BAD_REQUEST_RESPONSE.as_bytes());
    assert_eq!(process_request(&setup, &engine, &constants, b"", Route::Ready), READY_OK_RESPONSE.as_bytes());
}

#[test]
fn settings_choose_the_parser_and_the_classifier() {
    assert_eq!(ApiParser::from_setting(Some("FAST")), ApiParser::Fast);
    assert_eq!(ApiParser::from_setting(Some("fast ")), ApiParser::Serde);
    assert_eq!(ApiParser::from_setting(None), ApiParser::Serde);
    assert_eq!(ApiClassifier::from_setting(Some("Tree")), ApiClassifier::Tree);
    assert_eq!(ApiClassifier::from_setting(Some("tree-only")), ApiClassifier::TreeOnly);
    assert_eq!(ApiClassifier::from_setting(Some("TREE_ONLY")), ApiClassifier::TreeOnly);
    assert_eq!(ApiClassifier::from_setting(Some("on")), ApiClassifier::Off);
    assert_eq!(ApiClassifier::from_setting(None), ApiClassifier::Off);
}

#[test]
fn numbers_stand_within_the_body() {
    assert_eq!(parse_number_at(b"-12.5,", 0), Some(5));
    assert_eq!(parse_number_at(b"-1.5e2}", 0), Some(6));
    assert_eq!(parse_number_at(b"+7", 0), Some(2));
    assert_eq!(parse_number_at(b"1e}", 0), None);
    assert_eq!(parse_number_at(b"-", 0), None);
    assert_eq!(parse_number_at(b"null", 0), None);
    assert_eq!(f32::from_bits(single(b"-12.5")), -12.5);
    assert_eq!(f32::from_bits(single(b"-1.5e2")), -150.0);
    assert_eq!(f32::from_bits(single(b"+7")), 7.0);
    // Nothing stands at the end or beyond it.
    for pos in [1, 2, 5, usize::MAX] {
        assert_eq!(parse_number_at(b"1", pos), None);
        assert_eq!(parse_f64_at(b"1", pos), None);
        assert_eq!(parse_u32_at(b"1", pos), None);
    }
}

#[test]
fn elapsed_time_has_no_direction() {
    let text = String::from_utf8(RECORDED.to_vec()).unwrap();
    let swapped = text
        .replace("2027-07-09T16:31:06Z", "?")
        .replace("2027-06-04T14:14:22Z", "2027-07-09T16:31:06Z")
        .replace('?', "2027-06-04T14:14:22Z");
    let near = text.replace("2027-06-04T14:14:22Z", "2027-07-09T16:01:06Z");
    let near_swapped = swapped.replace("2027-06-04T14:14:22Z", "2027-07-09T16:01:06Z");
    for (a, b) in [(text, swapped), (near, near_swapped)] {
        let constants = constants();
        let (out, key) = parse_payload_to_i16_and_key(a.as_bytes(), &constants, &double, &quantize).unwrap();
        let (other, other_key) = parse_payload_to_i16_and_key(b.as_bytes(), &constants, &double, &quantize).unwrap();
        for i in (0..16).filter(|&i| i != 3 && i != 4) {
            assert_eq!(out[i], other[i]);
        }
        assert_eq!(key >> 8, other_key >> 8);
    }
}

#[test]
fn surroundings_do_not_matter() {
    let always = |_: &TreeCase<'_>, _: &Numbers| true;
    for body in [SAFE, RECORDED, RISKY] {
        let verdict = classify_approved(body, &single, &divide, &always);
        let vector = parse_payload_to_i16_and_key(body, &constants(), &double, &quantize);
        assert!(verdict.is_some() && vector.is_some());
        for (before, behind) in [("", "}"), ("{\"id\":7,\"body\":", ",\"transaction\":{\"amount\":9}"), ("\"transaction\":{", "123")] {
            let whole = [before.as_bytes(), body, behind.as_bytes()].concat();
            assert_eq!(classify_approved(&whole, &single, &divide, &always), verdict);
            assert_eq!(parse_payload_to_i16_and_key(&whole, &constants(), &double, &quantize), vector);
        }
        // The label that the fields start with is looked for from the first byte on.
        let earlier = [b"\"transaction\":{\"amount\":x".as_slice(), body].concat();
        assert_eq!(classify_approved(&earlier, &single, &divide, &always), None);
    }
}

#[test]
fn the_bucket_is_the_verdict_and_the_score() {
    let constants = constants();
    let alone = ApiSetup { perf: false, log_search_avg: false, parser: ApiParser::Fast, classifier: ApiClassifier::TreeOnly, has_index: false };
    for fraud in [false, true] {
        let predict = move |_: &TreeCase<'_>, _: &Numbers| fraud;
        let engine = Engine {
            read: single,
            divide,
            predict,
            number: double,
            quantize,
            search_vector: |_: &Vec16I, _: u16| 1u8,
            search_body: |_: &[u8]| Some(2u8),
        };
        for body in [SAFE, RECORDED, RISKY, b"", b"{}"] {
            let bucket = rinha_score_body(body, &single, &divide, &predict);
            let verdict = classify_approved(body, &single, &divide, &predict);
            assert_eq!(bucket, match verdict { Some(true) => 0, Some(false) => 5, None => 255 });
            let score = score_body_fast_bucket(&alone, &engine, &constants, body);
            assert_eq!(score, if bucket == 255 { Err(Unscored) } else { Ok(bucket) });
        }
    }
}

#[test]
fn the_score_is_the_verdict_whatever_the_parser() {
    let constants = constants();
    for fraud in [false, true] {
        let predict = move |_: &TreeCase<'_>, _: &Numbers| fraud;
        let engine = Engine {
            read: single,
            divide,
            predict,
            number: double,
            quantize,
            search_vector: |_: &Vec16I, _: u16| 1u8,
            search_body: |body: &[u8]| if body == b"{}" { Some(2u8) } else { None },
        };
        for parser in [ApiParser::Serde, ApiParser::Fast] {
            for (classifier, has_index) in [(ApiClassifier::Tree, true), (ApiClassifier::TreeOnly, false)] {
                let setup = ApiSetup { perf: false, log_search_avg: false, parser, classifier, has_index };
                for body in [SAFE, RECORDED, RISKY, b"{}", b"[]"] {
                    let expected = match classify_approved(body, &single, &divide, &predict) {
                        Some(true) => Ok(0),
                        Some(false) => Ok(5),
                        None if has_index && body == b"{}" => Ok(2),
                        None => Err(Unscored),
                    };
                    assert_eq!(score_body(&setup, &engine, &constants, body), expected);
                    let response = match expected {
                        Ok(bucket) => handoff_response_for_bucket(bucket),
                        Err(_) => BAD_REQUEST_RESPONSE.as_bytes(),
                    };
                    assert_eq!(process_request(&setup, &engine, &constants, body, Route::FraudScore), response);
                    assert_eq!(process_request(&setup, &engine, &constants, body, Route::Ready), READY_OK_RESPONSE.as_bytes());
                }
            }
        }
    }
}
