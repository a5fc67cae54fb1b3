use openapi_fuzzer::engine::is_finding;
use openapi_fuzzer::operation::param_text_of;
use openapi_fuzzer::request::{merge_headers, slot_name};
use openapi_fuzzer::sampler::{sample_int, sample_len};
use openapi_fuzzer::text::decimal_of;
use openapi_fuzzer::{
    build_request, Action, Engine, ExitSignal, Field, Format, FuzzResult, Header, Location, Method,
    Operation, Outcome, Param, Parameter, Payload, Property, Rng, RunStats, Sampler, SchemaGraph,
    SchemaKind, SchemaNode, UrlWithTrailingSlash, Value,
};
use std::str::FromStr;

fn b(s: &str) -> Vec<u8> {
    s.as_bytes().to_vec()
}

fn node(kind: SchemaKind) -> SchemaNode {
    SchemaNode { kind, nullable: false }
}

fn param(name: &str, value: &str) -> Param {
    Param { name: b(name), value: b(value) }
}

fn empty_payload() -> Payload {
    Payload { path_params: vec![], query_params: vec![], headers: vec![], body: None }
}

#[test]
fn header_is_split_at_first_colon_and_name_lowered() {
    let h = Header::from_str("X-Api-Key:abc:def").unwrap();
    assert_eq!(h.0, "x-api-key");
    assert_eq!(h.1, "abc:def");
}

#[test]
fn header_without_colon_is_rejected() {
    let e = Header::from_str("no colon here").err().unwrap();
    assert_eq!(e, "invalid header format");
}

#[test]
fn url_gets_trailing_slash() {
    let u = UrlWithTrailingSlash::from_str("http://localhost:8080/api").unwrap();
    assert_eq!(u.into_url().as_str(), "http://localhost:8080/api/");
    let v = UrlWithTrailingSlash::from_str("http://localhost/").unwrap();
    assert_eq!(v.into_url().as_str(), "http://localhost/");
}

#[test]
fn invalid_url_is_rejected() {
    assert!(UrlWithTrailingSlash::from_str("not a url").is_err());
}

#[test]
fn rng_is_reproducible_and_bounded() {
    let mut a = Rng::new(42);
    let mut c = Rng::new(42);
    for _ in 0..100 {
        assert_eq!(a.next_u64(), c.next_u64());
        let x = a.between(-3, 7);
        assert_eq!(x, c.between(-3, 7));
        assert!((-3..=7).contains(&x));
        assert!(a.below(5) < 5);
        c.below(5);
    }
    let mut full = Rng::new(1);
    let _ = full.between(i64::MIN, i64::MAX);
}

#[test]
fn splitmix_first_output() {
    let mut r = Rng::new(0);
    assert_eq!(r.next_u64(), 0xe220a8397b1dcdaf);
}

#[test]
fn integers_stay_within_bounds() {
    let mut r = Rng::new(7);
    for _ in 0..1000 {
        let x = sample_int(&mut r, Some(-5), Some(5));
        assert!((-5..=5).contains(&x));
        let y = sample_int(&mut r, Some(0), None);
        assert!(y >= 0);
    }
    assert_eq!(sample_int(&mut r, Some(3), Some(3)), 3);
}

#[test]
fn contradictory_bounds_fall_back() {
    let mut r = Rng::new(7);
    assert_eq!(sample_int(&mut r, Some(10), Some(1)), 10);
    assert_eq!(sample_len(&mut r, Some(10), Some(1), true), 0);
}

#[test]
fn lengths_stay_within_bounds() {
    let mut r = Rng::new(9);
    for _ in 0..500 {
        let n = sample_len(&mut r, Some(2), Some(4), true);
        assert!((2..=4).contains(&n));
    }
}

fn person_graph() -> SchemaGraph {
    SchemaGraph {
        nodes: vec![
            node(SchemaKind::Object {
                properties: vec![
                    Property { name: b("name"), schema: 1, required: true },
                    Property { name: b("age"), schema: 2, required: false },
                ],
                additional_properties: false,
            }),
            node(SchemaKind::Text { min_length: None, max_length: None, format: None }),
            node(SchemaKind::Integer { minimum: Some(0), maximum: None }),
        ],
    }
}

#[test]
fn object_has_required_name_and_nonnegative_age() {
    let g = person_graph();
    assert!(g.is_well_formed());
    let mut s = Sampler::new(3, 5);
    let mut saw_age = false;
    for _ in 0..300 {
        match s.sample(&g, 0, 0) {
            Value::Object(fields) => {
                assert!(fields.iter().any(|f| f.key == b("name")));
                for f in fields.iter() {
                    if f.key == b("age") {
                        saw_age = true;
                        match f.value {
                            Value::Int(a) => assert!(a >= 0),
                            _ => panic!("age is not an integer"),
                        }
                    }
                }
            }
            _ => panic!("not an object"),
        }
    }
    assert!(saw_age);
}

#[test]
fn self_referential_schema_terminates() {
    // A tree: an object whose "children" is an array of trees.
    let g = SchemaGraph {
        nodes: vec![
            node(SchemaKind::Object {
                properties: vec![Property { name: b("children"), schema: 1, required: true }],
                additional_properties: false,
            }),
            node(SchemaKind::Array { items: 0, min_items: Some(1), max_items: Some(3) }),
        ],
    };
    assert!(g.is_well_formed());
    let mut s = Sampler::new(11, 6);
    for _ in 0..20 {
        let v = s.sample(&g, 0, 0);
        assert!(matches!(v, Value::Object(_)));
    }
    // At the limit the required key is still present, with a null value.
    match s.sample(&g, 0, 6) {
        Value::Object(fields) => {
            assert_eq!(fields.len(), 1);
            assert!(matches!(fields[0].value, Value::Null));
        }
        _ => panic!("not an object"),
    }
}

#[test]
fn ill_formed_graph_is_detected() {
    let g = SchemaGraph {
        nodes: vec![node(SchemaKind::Array { items: 5, min_items: None, max_items: None })],
    };
    assert!(!g.is_well_formed());
}

#[test]
fn one_of_and_all_of() {
    let g = SchemaGraph {
        nodes: vec![
            node(SchemaKind::OneOf { variants: vec![1, 2] }),
            node(SchemaKind::Boolean),
            node(SchemaKind::Enumeration { values: vec![b("red"), b("blue")] }),
            node(SchemaKind::AllOf { parts: vec![4, 5] }),
            node(SchemaKind::Integer { minimum: Some(0), maximum: Some(100) }),
            node(SchemaKind::Integer { minimum: Some(50), maximum: Some(200) }),
        ],
    };
    assert!(g.is_well_formed());
    let mut s = Sampler::new(5, 4);
    for _ in 0..200 {
        match s.sample(&g, 0, 0) {
            Value::Bool(_) => {}
            Value::Text(t) => assert!(t == b("red") || t == b("blue")),
            _ => panic!("unexpected variant"),
        }
        match s.sample(&g, 3, 0) {
            Value::Int(x) => assert!((50..=100).contains(&x)),
            _ => panic!("not an integer"),
        }
    }
}

#[test]
fn nullable_gives_null_sometimes() {
    let g = SchemaGraph {
        nodes: vec![SchemaNode { kind: SchemaKind::Boolean, nullable: true }],
    };
    let mut s = Sampler::new(1, 3);
    let mut nulls = 0;
    for _ in 0..500 {
        if matches!(s.sample(&g, 0, 0), Value::Null) {
            nulls += 1;
        }
    }
    assert!(nulls > 0 && nulls < 500);
}

#[test]
fn decimal_text() {
    assert_eq!(decimal_of(0), b("0"));
    assert_eq!(decimal_of(-1), b("-1"));
    assert_eq!(decimal_of(1234), b("1234"));
    assert_eq!(decimal_of(i64::MIN), b("-9223372036854775808"));
}

#[test]
fn parameter_text_styles() {
    assert_eq!(param_text_of(&Value::Bool(true)), b("true"));
    assert_eq!(param_text_of(&Value::Null), b(""));
    assert_eq!(
        param_text_of(&Value::List(vec![Value::Int(1), Value::Text(b("x")), Value::Bool(false)])),
        b("1,x,false")
    );
    assert_eq!(
        param_text_of(&Value::Object(vec![
            Field { key: b("a"), value: Value::Int(-2) },
            Field { key: b("b"), value: Value::Text(b("y")) },
        ])),
        b("a,-2,b,y")
    );
}

#[test]
fn path_is_substituted_and_escaped() {
    let r = FuzzResult {
        path: b("/items/{id}/tags/{tag}"),
        method: Method::Get,
        payload: Payload {
            path_params: vec![param("id", "-1"), param("tag", "a b/c")],
            query_params: vec![param("q", "x&y"), param("n", "2")],
            headers: vec![],
            body: None,
        },
    };
    let q = build_request(&b("http://localhost/api/"), &r, &vec![]);
    assert_eq!(q.url, b("http://localhost/api/items/-1/tags/a%20b%2Fc?q=x%26y&n=2"));
    assert!(q.method == Method::Get);
}

#[test]
fn unknown_placeholder_and_open_brace_kept() {
    let r = FuzzResult {
        path: b("/a/{missing}/{open"),
        method: Method::Post,
        payload: empty_payload(),
    };
    let q = build_request(&b("http://h/"), &r, &vec![]);
    assert_eq!(q.url, b("http://h/a/{missing}/{open"));
}

#[test]
fn fixed_headers_win() {
    let fixed = vec![param("authorization", "SECRET-REDACTED")];
    let sampled = vec![param("Authorization", "sampled"), param("X-Trace", "1")];
    let merged = merge_headers(&fixed, &sampled);
    assert_eq!(merged.len(), 2);
    assert_eq!(merged[0].name, b("authorization"));
    assert_eq!(merged[0].value, b("SECRET-REDACTED"));
    assert_eq!(merged[1].name, b("x-trace"));
    assert_eq!(merged[1].value, b("1"));
}

#[test]
fn rebuilding_twice_gives_same_request() {
    let r = FuzzResult {
        path: b("/items/{id}"),
        method: Method::Delete,
        payload: Payload {
            path_params: vec![param("id", "7")],
            query_params: vec![],
            headers: vec![param("X-A", "b")],
            body: Some(Value::Int(3)),
        },
    };
    let fixed = vec![param("x-b", "c")];
    let q1 = build_request(&b("http://h/"), &r, &fixed);
    let q2 = build_request(&b("http://h/"), &r, &fixed);
    assert_eq!(q1.url, q2.url);
    assert_eq!(q1.headers.len(), q2.headers.len());
    for (x, y) in q1.headers.iter().zip(q2.headers.iter()) {
        assert_eq!(x.name, y.name);
        assert_eq!(x.value, y.value);
    }
}

#[test]
fn finding_example_get_item() {
    // GET /items/{id}, id an integer, ignore 404; the trial sent id = -1 and got 500.
    let mut engine = Engine::new(1, 1, vec![404], false);
    assert!(engine.next_action() == Action::Send { op: 0, trial: 0 });
    let r = FuzzResult {
        path: b("/items/{id}"),
        method: Method::Get,
        payload: Payload {
            path_params: vec![param("id", "-1")],
            query_params: vec![],
            headers: vec![],
            body: None,
        },
    };
    let q = build_request(&b("http://localhost/"), &r, &vec![]);
    assert_eq!(q.url, b("http://localhost/items/-1"));
    assert!(engine.record(Outcome::Status(500)));
    assert!(engine.next_action() == Action::Done);
    assert!(engine.exit_signal() == ExitSignal::FindingsPresent);
    assert_eq!(slot_name(Method::Get, &r.path, 0), b("GET_%2Fitems%2F%7Bid%7D_0"));
}

#[test]
fn ignored_status_is_not_a_finding() {
    assert!(!is_finding(&vec![404, 400], false, Outcome::Status(404)));
    assert!(is_finding(&vec![404, 400], false, Outcome::Status(500)));
    assert!(!is_finding(&vec![], false, Outcome::TransportError));
    assert!(is_finding(&vec![], true, Outcome::TransportError));
}

#[test]
fn run_issues_at_most_n_times_k_requests() {
    let mut engine = Engine::new(3, 4, vec![200], false);
    let mut sent = 0;
    loop {
        match engine.next_action() {
            Action::Send { op, trial } => {
                assert!(op < 3 && trial < 4);
                sent += 1;
                engine.record(Outcome::Status(200));
            }
            Action::Done => break,
        }
    }
    assert_eq!(sent, 12);
    assert!(engine.exit_signal() == ExitSignal::Clean);
}

#[test]
fn zero_trials_sends_nothing() {
    let mut engine = Engine::new(5, 0, vec![], false);
    assert!(engine.next_action() == Action::Done);
    assert!(engine.exit_signal() == ExitSignal::Clean);
}

#[test]
fn transport_errors_counted_when_configured() {
    let mut engine = Engine::new(1, 2, vec![200], true);
    engine.next_action();
    engine.record(Outcome::TransportError);
    engine.next_action();
    engine.record(Outcome::Status(200));
    assert!(engine.next_action() == Action::Done);
    assert!(engine.exit_signal() == ExitSignal::FindingsPresent);
}

#[test]
fn payload_holds_required_parameters() {
    let g = SchemaGraph {
        nodes: vec![
            node(SchemaKind::Integer { minimum: None, maximum: None }),
            node(SchemaKind::Text { min_length: Some(1), max_length: Some(3), format: None }),
        ],
    };
    let op = Operation {
        path: b("/items/{id}"),
        method: Method::Get,
        parameters: vec![
            Parameter { name: b("id"), location: Location::Path, schema: 0, required: true },
            Parameter { name: b("q"), location: Location::Query, schema: 1, required: true },
            Parameter { name: b("X-Opt"), location: Location::Header, schema: 1, required: false },
        ],
        body: Some(0),
        body_required: true,
    };
    let mut s = Sampler::new(8, 4);
    for _ in 0..50 {
        let p = s.sample_payload(&g, &op);
        assert_eq!(p.path_params.len(), 1);
        assert_eq!(p.path_params[0].name, b("id"));
        assert_eq!(p.query_params.len(), 1);
        assert!((1..=3).contains(&p.query_params[0].value.len()));
        assert!(matches!(p.body, Some(Value::Int(_))));
    }
}

#[test]
fn stats_record_per_operation() {
    let mut st = RunStats::new(2, true);
    st.record(1, 10);
    st.record(1, 20);
    st.record(0, 5);
    assert_eq!(st.times[0], vec![5]);
    assert_eq!(st.times[1], vec![10, 20]);
    let mut off = RunStats::new(2, false);
    off.record(0, 1);
    assert!(off.times[0].is_empty());
}

#[test]
fn conversions_hand_back_fields() {
    let h = Header::from_str("Accept:text/plain").unwrap();
    let (n, v): (String, String) = h.into();
    assert_eq!(n, "accept");
    assert_eq!(v, "text/plain");
    let u = UrlWithTrailingSlash::from_str("https://example.com").unwrap();
    let url: url::Url = u.into();
    assert_eq!(url.as_str(), "https://example.com/");
}

#[test]
fn cancelled_run_starts_no_more_trials() {
    let mut engine = Engine::new(2, 3, vec![], false);
    assert!(matches!(engine.next_action(), Action::Send { .. }));
    engine.record(Outcome::Status(500));
    engine.cancel();
    assert!(engine.next_action() == Action::Done);
    assert!(engine.exit_signal() == ExitSignal::FindingsPresent);
}

#[test]
fn slot_names_differ_by_trial_and_operation() {
    let a = slot_name(Method::Get, &b("/x"), 1);
    let c = slot_name(Method::Get, &b("/x"), 2);
    let d = slot_name(Method::Post, &b("/x"), 1);
    assert_eq!(a, b("GET_%2Fx_1"));
    assert_ne!(a, c);
    assert_ne!(a, d);
}

#[test]
fn formatted_strings_take_the_format_shape_or_stay_in_bounds() {
    let g = SchemaGraph {
        nodes: vec![
            node(SchemaKind::Text { min_length: Some(0), max_length: Some(4), format: Some(Format::Date) }),
            node(SchemaKind::Text { min_length: Some(0), max_length: Some(4), format: Some(Format::Uuid) }),
        ],
    };
    let mut s = Sampler::new(21, 3);
    let mut shaped = 0;
    for _ in 0..200 {
        match s.sample(&g, 0, 0) {
            Value::Text(t) if t.len() == 10 => {
                shaped += 1;
                assert_eq!(t[4], b'-');
                assert_eq!(t[7], b'-');
                assert!(t.iter().enumerate().all(|(i, c)| i == 4 || i == 7 || c.is_ascii_digit()));
            }
            Value::Text(t) => assert!(t.len() <= 4),
            _ => panic!("not a string"),
        }
        match s.sample(&g, 1, 0) {
            Value::Text(t) if t.len() == 36 => {
                assert!(t.iter().all(|c| *c == b'-' || c.is_ascii_hexdigit()));
            }
            Value::Text(t) => assert!(t.len() <= 4),
            _ => panic!("not a string"),
        }
    }
    assert!(shaped > 0 && shaped < 200);
}

fn same_value(a: &Value, c: &Value) -> bool {
    match (a, c) {
        (Value::Null, Value::Null) => true,
        (Value::Bool(x), Value::Bool(y)) => x == y,
        (Value::Int(x), Value::Int(y)) => x == y,
        (Value::Text(x), Value::Text(y)) => x == y,
        (Value::List(x), Value::List(y)) => {
            x.len() == y.len() && x.iter().zip(y.iter()).all(|(p, q)| same_value(p, q))
        }
        (Value::Object(x), Value::Object(y)) => {
            x.len() == y.len()
                && x.iter().zip(y.iter()).all(|(p, q)| p.key == q.key && same_value(&p.value, &q.value))
        }
        _ => false,
    }
}

#[test]
fn header_value_kept_verbatim() {
    let h = Header::from_str("Content-Type: application/json").unwrap();
    assert_eq!(h.0, "content-type");
    assert_eq!(h.1, " application/json");
    let a = Header::from_str("Authorization:Bearer a:b").unwrap();
    assert_eq!(a.0, "authorization");
    assert_eq!(a.1, "Bearer a:b");
    assert_eq!(Header::from_str("NoColon").err().unwrap(), "invalid header format");
    assert!(Header::from_str("").is_err());
}

#[test]
fn open_object_declared_properties_fit() {
    let g = SchemaGraph {
        nodes: vec![
            node(SchemaKind::Object {
                properties: vec![
                    Property { name: b("name"), schema: 1, required: true },
                    Property { name: b("age"), schema: 2, required: false },
                ],
                additional_properties: true,
            }),
            node(SchemaKind::Text { min_length: None, max_length: None, format: None }),
            node(SchemaKind::Integer { minimum: Some(0), maximum: None }),
        ],
    };
    let mut s = Sampler::new(17, 5);
    let mut saw_extra = false;
    for _ in 0..300 {
        match s.sample(&g, 0, 0) {
            Value::Object(fields) => {
                assert!(fields.iter().any(|f| f.key == b("name")));
                for f in fields.iter() {
                    if f.key == b("name") {
                        assert!(matches!(f.value, Value::Text(_)));
                    } else if f.key == b("age") {
                        assert!(matches!(f.value, Value::Int(a) if a >= 0));
                    } else {
                        saw_extra = true;
                    }
                }
            }
            _ => panic!("not an object"),
        }
    }
    assert!(saw_extra);
}

#[test]
fn all_of_objects_hold_every_required_key() {
    let g = SchemaGraph {
        nodes: vec![
            node(SchemaKind::AllOf { parts: vec![1, 2] }),
            node(SchemaKind::Object {
                properties: vec![Property { name: b("id"), schema: 3, required: true }],
                additional_properties: true,
            }),
            node(SchemaKind::Object {
                properties: vec![Property { name: b("label"), schema: 4, required: true }],
                additional_properties: true,
            }),
            node(SchemaKind::Integer { minimum: Some(1), maximum: Some(9) }),
            node(SchemaKind::Text { min_length: Some(1), max_length: Some(2), format: None }),
        ],
    };
    assert!(g.is_well_formed());
    let mut s = Sampler::new(4, 5);
    for _ in 0..100 {
        match s.sample(&g, 0, 0) {
            Value::Object(fields) => {
                assert!(fields.iter().any(|f| f.key == b("id") && matches!(f.value, Value::Int(1..=9))));
                assert!(fields.iter().any(|f| f.key == b("label")));
            }
            _ => panic!("not an object"),
        }
    }
}

#[test]
fn equal_seeds_give_equal_samples() {
    let g = person_graph();
    let mut s1 = Sampler::new(99, 5);
    let mut s2 = Sampler::new(99, 5);
    for _ in 0..100 {
        let a = s1.sample(&g, 0, 0);
        let c = s2.sample(&g, 0, 0);
        assert!(same_value(&a, &c));
        assert_eq!(s1.rng.state, s2.rng.state);
    }
}

#[test]
fn operation_indices_checked() {
    let op = Operation {
        path: b("/x"),
        method: Method::Get,
        parameters: vec![Parameter { name: b("a"), location: Location::Query, schema: 3, required: true }],
        body: None,
        body_required: false,
    };
    assert!(!op.indices_below(2));
    assert!(op.indices_below(4));
}
