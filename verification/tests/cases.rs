use generation::json::{merge, shadow, shadowed, Json};
use generation::cases::{plan_template, process, Refusal, TemplateRefusal};
use generation::context::{Context, Declared};
use generation::names::{decimal_text, dotted, gather_tags, identify, qualified, Counters};
use generation::syntax::{FnArg, Generics, Pat, Signature, Ty};
use generation::validation::{parameter_names, target_span, validate, Violation};

fn number(n: &str) -> Json {
    Json::Number(n.to_string())
}

fn text(s: &str) -> Json {
    Json::String(s.to_string())
}

fn object(entries: Vec<(&str, Json)>) -> Json {
    Json::Object(entries.into_iter().map(|(k, v)| (k.to_string(), v)).collect())
}

fn entries(entries: Vec<(&str, Json)>) -> Vec<(String, Json)> {
    entries.into_iter().map(|(k, v)| (k.to_string(), v)).collect()
}

#[test]
fn shadow_merges_objects_key_by_key() {
    let mut target = object(vec![
        ("a", number("1")),
        ("b", object(vec![("c", number("2")), ("d", number("3"))])),
    ]);
    let patch = object(vec![
        ("b", object(vec![("c", Json::Null), ("e", number("4"))])),
        ("f", number("5")),
    ]);
    shadow(&mut target, &patch);
    let expected = object(vec![
        ("a", number("1")),
        ("b", object(vec![("d", number("3")), ("e", number("4"))])),
        ("f", number("5")),
    ]);
    assert_eq!(target, expected);
}

#[test]
fn shadow_replaces_with_anything_but_an_object() {
    let mut target = object(vec![("a", number("1"))]);
    shadow(&mut target, &text("x"));
    assert_eq!(target, text("x"));
    let mut list = Json::Array(vec![number("1")]);
    shadow(&mut list, &Json::Array(vec![]));
    assert_eq!(list, Json::Array(vec![]));
}

#[test]
fn shadow_of_a_scalar_by_an_object_starts_from_empty() {
    let mut target = number("7");
    shadow(&mut target, &object(vec![("k", Json::Null), ("v", Json::Bool(true))]));
    assert_eq!(target, object(vec![("v", Json::Bool(true))]));
}

#[test]
fn shadow_is_idempotent_on_an_example() {
    let patch = object(vec![("x", object(vec![("y", number("1"))])), ("z", Json::Null)]);
    let mut once = object(vec![("z", number("0")), ("w", number("2"))]);
    shadow(&mut once, &patch);
    let mut twice = object(vec![("z", number("0")), ("w", number("2"))]);
    shadow(&mut twice, &patch);
    shadow(&mut twice, &patch);
    assert_eq!(once, twice);
}

#[test]
fn shadowed_overlays_overrides_on_defaults() {
    let defaults = entries(vec![("a", number("1")), ("b", object(vec![("x", number("1"))]))]);
    let overrides = entries(vec![
        ("b", object(vec![("y", number("2"))])),
        ("c", object(vec![("n", Json::Null)])),
        ("a", Json::Null),
    ]);
    let merged = shadowed(&defaults, &overrides);
    assert_eq!(
        merged,
        entries(vec![
            ("a", Json::Null),
            ("b", object(vec![("x", number("1")), ("y", number("2"))])),
            ("c", object(vec![("n", Json::Null)])),
        ])
    );
}

#[test]
fn merge_appends_case_tags() {
    let function = vec!["slow".to_string(), "io".to_string()];
    let case = vec!["edge".to_string()];
    assert_eq!(merge(&function, &case), vec!["slow", "io", "edge"]);
    assert!(merge(&[], &[]).is_empty());
}

#[test]
fn identify_numbers_names_per_base() {
    let mut counters = Counters::new();
    let tags = vec!["fast".to_string()];
    assert_eq!(identify("run", &tags, &mut counters), "run_fast_0");
    assert_eq!(identify("run", &tags, &mut counters), "run_fast_1");
    assert_eq!(identify("run", &[], &mut counters), "run_0");
    assert_eq!(identify("run", &tags, &mut counters), "run_fast_2");
    let mut other = Counters::default();
    assert_eq!(identify("run", &["a".to_string(), "b".to_string()], &mut other), "run_a_b_0");
}

#[test]
fn identify_never_repeats_a_name() {
    let mut counters = Counters::new();
    let mut seen = std::collections::HashSet::new();
    for _ in 0..12 {
        assert!(seen.insert(identify("t", &["1".to_string()], &mut counters)));
        assert!(seen.insert(identify("t_1", &[], &mut counters)));
        assert!(seen.insert(identify("t", &[], &mut counters)));
    }
}

#[test]
fn decimal_text_writes_numbers() {
    assert_eq!(decimal_text(0), "0");
    assert_eq!(decimal_text(7), "7");
    assert_eq!(decimal_text(1234), "1234");
    assert_eq!(decimal_text(usize::MAX), usize::MAX.to_string());
}

fn names(parts: &[&str]) -> Vec<String> {
    parts.iter().map(|p| p.to_string()).collect()
}

#[test]
fn validate_reports_a_missing_parameter() {
    let result = validate(&names(&["a", "b"]), &names(&["a"]), &names(&["()"]), "{}");
    assert_eq!(result, Err(Violation::Missing { field: "b".to_string() }));
}

#[test]
fn validate_reports_an_extraneous_parameter_with_its_place() {
    let content = "{\"a\": 1, \"c\": 2}";
    let result = validate(&names(&["a"]), &names(&["a", "c"]), &names(&["()"]), content);
    assert_eq!(result, Err(Violation::Extraneous { name: "c".to_string(), position: Some((9, 3)) }));
}

#[test]
fn validate_reports_an_unexpected_return_value() {
    let content = "{\"ret\": 1}";
    let result = validate(&names(&["a"]), &names(&["a"]), &names(&["a", "ret"]), content);
    assert_eq!(result, Err(Violation::Unexpected { name: "ret".to_string(), position: Some((1, 5)) }));
    let missing = validate(&names(&[]), &names(&[]), &names(&["zzz"]), "{}");
    assert_eq!(missing, Err(Violation::Unexpected { name: "zzz".to_string(), position: None }));
}

#[test]
fn validate_needs_a_return_check() {
    assert_eq!(validate(&names(&["a"]), &names(&["a"]), &names(&[]), ""), Err(Violation::Unchecked));
    assert_eq!(validate(&names(&["a"]), &names(&["a"]), &names(&["a"]), ""), Ok(()));
    assert_eq!(validate(&names(&[]), &names(&[]), &names(&["()"]), ""), Ok(()));
}

#[test]
fn validate_counts_bytes_of_wide_characters() {
    let content = "{\"é\": 1, \"x\": 2}";
    let result = validate(&names(&[]), &names(&["x"]), &names(&["()"]), content);
    assert_eq!(result, Err(Violation::Extraneous { name: "x".to_string(), position: Some((10, 3)) }));
}

#[test]
fn target_span_points_into_the_function_entry() {
    let content = "{\"function\": \"run\"}";
    assert_eq!(target_span(content, "run"), Some((14, 3)));
    assert_eq!(target_span(content, "n"), Some((4, 1)));
    assert_eq!(target_span("run elsewhere", "run"), Some((0, 3)));
    assert_eq!(target_span("nothing", "run"), None);
}

fn typed(name: &str) -> FnArg {
    FnArg::Typed {
        pat: Pat::Ident { by_ref: false, mutable: false, ident: name.to_string() },
        ty: Ty::Infer,
    }
}

#[test]
fn parameter_names_take_plain_bindings() {
    let signature = Signature {
        constness: false,
        asyncness: false,
        unsafety: false,
        ident: "run".to_string(),
        generics: Generics { params: vec![], where_clause: None },
        inputs: vec![
            FnArg::Receiver { reference: true, lifetime: None, mutable: false },
            typed("left"),
            FnArg::Typed { pat: Pat::Wild, ty: Ty::Infer },
            typed("right"),
        ],
        output: None,
    };
    assert_eq!(parameter_names(&signature), vec!["left", "right"]);
}


#[test]
fn dotted_names() {
    assert_eq!(dotted("outer::inner::run"), "outer.inner.run");
    assert_eq!(dotted("run"), "run");
    assert_eq!(dotted("a:::b"), "a.:b");
}

#[test]
fn qualified_names() {
    assert_eq!(qualified(&vec![], "run"), "run");
    assert_eq!(qualified(&vec!["outer".to_string(), "inner".to_string()], "run"), "outer::inner::run");
}

#[test]
fn gathered_tags_keep_first_occurrences() {
    let mut seen = vec!["a".to_string()];
    gather_tags(&mut seen, &vec!["b".to_string(), "a".to_string(), "b".to_string(), "c".to_string()]);
    assert_eq!(seen, vec!["a", "b", "c"]);
}

fn signature(name: &str, parameters: &[&str]) -> Signature {
    Signature {
        constness: false,
        asyncness: false,
        unsafety: false,
        ident: name.to_string(),
        generics: Generics { params: vec![], where_clause: None },
        inputs: parameters.iter().map(|p| typed(p)).collect(),
        output: None,
    }
}

fn function(name: &str, parameters: &[&str], nested: Vec<Declared>) -> Declared {
    Declared::Fn { sig: signature(name, parameters), nested }
}

fn module(name: &str, nested: Vec<Declared>) -> Declared {
    Declared::Mod { ident: name.to_string(), nested }
}

#[test]
fn context_collects_functions_with_their_modules() {
    // A function declared in a method body, a loop or a block is found
    // without the impl or the block adding to its name.
    let items = vec![
        function("top", &["a", "b"], vec![function("helper", &["x"], vec![])]),
        module("outer", vec![function("run", &[], vec![]), module("inner", vec![function("deep", &["n"], vec![])])]),
        function("local", &[], vec![]),
    ];
    let context = Context::from(&items);
    let names: Vec<&str> = context.functions.iter().map(|(n, _)| n.as_str()).collect();
    assert_eq!(names, vec!["top", "helper", "outer::run", "outer::inner::deep", "local"]);
    assert_eq!(context.functions[0].1, vec!["a", "b"]);
    assert_eq!(context.functions[3].1, vec!["n"]);
    assert_eq!(context.find("outer::run"), Some(2));
    assert_eq!(context.find("method"), None);
}

#[test]
fn context_names_functions_inside_nested_modules() {
    let items = vec![function("f", &[], vec![module("m", vec![function("g", &["y"], vec![])])])];
    let context = Context::from(&items);
    let names: Vec<&str> = context.functions.iter().map(|(n, _)| n.as_str()).collect();
    assert_eq!(names, vec!["f", "m::g"]);
}

#[test]
fn context_find_prefers_the_last_of_a_name() {
    let items = vec![function("twice", &["a"], vec![]), function("twice", &["b"], vec![])];
    let context = Context::from(&items);
    let found = context.find("twice").expect("present");
    assert_eq!(found, 1);
    assert_eq!(context.functions[found].1, vec!["b"]);
}

#[test]
fn validate_accepts_parameters_in_any_order() {
    assert_eq!(validate(&names(&["a", "b"]), &names(&["b", "a"]), &names(&["b", "()"]), ""), Ok(()));
}

fn list(items: Vec<Json>) -> Json {
    Json::Array(items)
}

#[test]
fn process_checks_every_case_in_order() {
    let context = Context::from(&vec![function("add", &["a", "b"], vec![])]);
    let data = object(vec![(
        "functions",
        list(vec![object(vec![
            ("function", text("add")),
            ("parameters", object(vec![("a", number("1"))])),
            ("returns", object(vec![("()", number("3"))])),
            ("tags", list(vec![text("math")])),
            (
                "cases",
                list(vec![
                    object(vec![("parameters", object(vec![("b", number("2"))])), ("tags", list(vec![text("small")]))]),
                    object(vec![("parameters", object(vec![("a", number("5")), ("b", number("6"))]))]),
                ]),
            ),
        ])]),
    )]);
    let planned = process(&data, &context, "{}").ok().expect("every case passes");
    assert_eq!(planned.len(), 2);
    assert_eq!(planned[0].function, "add");
    assert_eq!(planned[0].index, 0);
    assert_eq!(planned[0].parameters, entries(vec![("a", number("1")), ("b", number("2"))]));
    assert_eq!(planned[0].outcomes, entries(vec![("()", number("3"))]));
    assert_eq!(planned[0].tags, vec!["math", "small"]);
    assert_eq!(planned[1].parameters, entries(vec![("a", number("5")), ("b", number("6"))]));
    assert_eq!(planned[1].tags, vec!["math"]);
}

#[test]
fn process_refuses_an_unknown_function_and_a_failing_case() {
    let context = Context::from(&vec![function("add", &["a"], vec![])]);
    let unknown = object(vec![("functions", list(vec![object(vec![("function", text("sub"))])]))]);
    assert!(matches!(process(&unknown, &context, "{}"), Err(Refusal::Untargetable { name }) if name == "sub"));
    let failing = object(vec![(
        "functions",
        list(vec![object(vec![
            ("function", text("add")),
            ("returns", object(vec![("()", number("1"))])),
            ("cases", list(vec![object(vec![])])),
        ])]),
    )]);
    assert!(matches!(
        process(&failing, &context, "{}"),
        Err(Refusal::Invalid { function, violation: Violation::Missing { field } }) if function == "add" && field == "a"
    ));
    let empty = object(vec![]);
    assert!(matches!(process(&empty, &context, "{}"), Ok(v) if v.is_empty()));
}

#[test]
fn plan_template_refuses_a_template_that_does_not_parse() {
    let items = vec![function("add", &["a"], vec![])];
    let data = object(vec![]);
    assert!(matches!(plan_template("fn add(a: u8 {", &items, &data, "{}"), Err(TemplateRefusal::Unparsable)));
    assert!(matches!(plan_template("fn add(a: u8) {}", &items, &data, "{}"), Ok(v) if v.is_empty()));
    let unknown = object(vec![("functions", list(vec![object(vec![("function", text("sub"))])]))]);
    assert!(matches!(
        plan_template("fn add(a: u8) {}", &items, &unknown, "{}"),
        Err(TemplateRefusal::Refused(Refusal::Untargetable { name })) if name == "sub"
    ));
}
