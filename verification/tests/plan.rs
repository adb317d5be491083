use generation::plan::{bindings, find_parameter_type, recorded, result_variable, Passing};
use generation::syntax::{FnArg, Generics, Path, Pat, Segment, Signature, Ty, Arguments};

fn plain(name: &str) -> Ty {
    Ty::Path { qself: None, path: Path { segments: vec![Segment { ident: name.to_string(), arguments: Arguments::Plain }] } }
}

fn typed(name: &str, ty: Ty) -> FnArg {
    FnArg::Typed { pat: Pat::Ident { by_ref: false, mutable: false, ident: name.to_string() }, ty }
}

fn signature() -> Signature {
    Signature {
        constness: false,
        asyncness: false,
        unsafety: false,
        ident: "apply".to_string(),
        generics: Generics { params: vec![], where_clause: None },
        inputs: vec![
            typed("count", plain("u32")),
            typed("items", Ty::Reference { lifetime: None, mutable: true, elem: Box::new(plain("Vec")) }),
            FnArg::Typed { pat: Pat::Wild, ty: plain("u8") },
            typed("name", Ty::Reference { lifetime: None, mutable: false, elem: Box::new(plain("str")) }),
        ],
        output: Some(plain("bool")),
    }
}

fn strings(parts: &[&str]) -> Vec<String> {
    parts.iter().map(|p| p.to_string()).collect()
}

#[test]
fn bindings_follow_parameter_types() {
    let plan = bindings(&signature());
    let view: Vec<(&str, Passing)> = plan.iter().map(|b| (b.name.as_str(), b.passing)).collect();
    assert_eq!(view, vec![("count", Passing::Value), ("items", Passing::Mutable), ("name", Passing::Shared)]);
}

#[test]
fn result_variable_is_named_when_read() {
    assert_eq!(result_variable(&strings(&["()"])), "result");
    assert_eq!(result_variable(&strings(&["items", "result"])), "result");
    assert_eq!(result_variable(&strings(&["items"])), "_result");
    assert_eq!(result_variable(&strings(&[])), "_result");
}

#[test]
fn recorded_puts_the_result_first() {
    let parameters = strings(&["count", "items", "name"]);
    assert_eq!(recorded(&strings(&["items", "()", "name"]), &parameters), Ok(strings(&["()", "items", "name"])));
    assert_eq!(recorded(&strings(&["items"]), &parameters), Ok(strings(&["items"])));
    assert_eq!(recorded(&strings(&["items", "other", "extra"]), &parameters), Err("other".to_string()));
}

#[test]
fn parameter_types_by_name() {
    let sig = signature();
    assert!(matches!(find_parameter_type(&sig, "items"), Some(Ty::Reference { mutable: true, .. })));
    assert!(matches!(find_parameter_type(&sig, "count"), Some(Ty::Path { .. })));
    assert!(find_parameter_type(&sig, "missing").is_none());
}

use generation::plan::read_type;

#[test]
fn comparisons_read_through_references() {
    let reference = Ty::Reference { lifetime: None, mutable: false, elem: Box::new(plain("str")) };
    assert!(matches!(read_type(&reference), Ty::Path { .. }));
    assert!(matches!(read_type(&Ty::Never), Ty::Never));
}
