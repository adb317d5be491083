use generation::index::{autotest, extract, function, generation, page_title, performance, resources, web, Context};
use generation::interaction::{
    active, current, dismisses, indicators, is_dark, rebase, rotation, toggled, Error, Indicator, Pages,
};
use generation::json::Json;
use generation::literals::{type_to_string, FieldOperations, IntegralType, OtherType, PrimitiveType, RealType};
use generation::runtime::{deserialization_help, lines, source_offset};
use generation::syntax::{Arguments, GenericArg, NamedField, Path, Segment, Ty, Visibility};
use generation::visualize::{arrange, find_template, partition, query, split_at_char, Missing, Template};

#[test]
fn index_entries() {
    let g = generation("../");
    assert_eq!(g.root, "../");
    assert_eq!(g.path, "system/generation/");
    assert_eq!(g.context, Context::Generation);
    assert_eq!(g.identifier, "generation");
    assert_eq!(extract("/").path, "system/generation/extract.html");
    let a = autotest("");
    assert_eq!((a.path.as_str(), a.context, a.identifier.as_str()), ("system/generation/rust/", Context::Autotest, "autotest"));
    assert_eq!(function("").path, "system/generation/rust/function.html");
    assert_eq!(performance("").identifier, "performance");
    assert_eq!(web("").path, "system/generation/web/");
    assert_eq!(Context::Autotest.as_str(), "autotest");
}

#[test]
fn query_for_a_plain_function() {
    assert_eq!(query("run"), "(function_item name: (identifier) @name (#eq? @name \"run\")) @capture");
}

#[test]
fn query_descends_into_modules() {
    assert_eq!(
        query("outer.inner.run"),
        "(mod_item name: (identifier) @_outer (#eq? @_outer \"outer\") body: (declaration_list \
(mod_item name: (identifier) @_inner (#eq? @_inner \"inner\") body: (declaration_list \
(function_item name: (identifier) @name (#eq? @name \"run\")) @capture))))"
    );
}

#[test]
fn split_at_char_keeps_empty_pieces() {
    let pieces: Vec<String> = split_at_char("a..b.", '.').into_iter().map(|p| p.into_iter().collect()).collect();
    assert_eq!(pieces, vec!["a", "", "b", ""]);
}

#[test]
fn find_template_by_path_suffix() {
    let templates = vec![
        Template { path: "src/lib.rs".to_string(), content: String::new() },
        Template { path: "tests/template.rs".to_string(), content: String::new() },
    ];
    assert_eq!(find_template(&templates, "template.rs"), Some(1));
    assert_eq!(find_template(&templates, "lib.rs"), Some(0));
    assert_eq!(find_template(&templates, "main.rs"), None);
}

#[test]
fn source_offset_from_line_and_column() {
    assert_eq!(source_offset("ab\ncd\nef", 2, 2), 4);
    assert_eq!(source_offset("ab\ncd\nef", 1, 1), 0);
    assert_eq!(source_offset("ab\ncd\nef", 0, 0), 0);
    assert_eq!(source_offset("ab", 5, 3), 3);
    assert_eq!(source_offset("ab\r\ncd", 2, 1), 3);
    assert_eq!(source_offset("é\nx", 2, 1), 3);
}

#[test]
fn lines_follow_str_lines() {
    let text = "a\r\nb\n\nc\r";
    let ours: Vec<String> = lines(text).into_iter().map(|l| l.into_iter().collect()).collect();
    let std: Vec<String> = text.lines().map(|l| l.to_string()).collect();
    assert_eq!(ours, std);
    assert!(lines("").is_empty());
    assert_eq!(lines("x\n").len(), 1);
}

#[test]
fn help_for_deserialization() {
    assert_eq!(
        deserialization_help("Cases", "cases.json"),
        "In file: cases.json\nExpected type: Cases\nCheck that your structure matches the expected target format."
    );
}

#[test]
fn primitive_types_by_name() {
    assert_eq!(PrimitiveType::from_type_name("u8"), Some(PrimitiveType::Integral(IntegralType::U8)));
    assert_eq!(PrimitiveType::from_type_name("isize"), Some(PrimitiveType::Integral(IntegralType::ISize)));
    assert_eq!(PrimitiveType::from_type_name("f64"), Some(PrimitiveType::Real(RealType::F64)));
    assert_eq!(PrimitiveType::from_type_name("String"), Some(PrimitiveType::Other(OtherType::String)));
    assert_eq!(PrimitiveType::from_type_name("str"), Some(PrimitiveType::Other(OtherType::Str)));
    assert_eq!(PrimitiveType::from_type_name("Vec"), None);
    assert_eq!(PrimitiveType::from_type_name("string"), None);
}

#[test]
fn other_literals() {
    assert_eq!(OtherType::Bool.to_literal(&Json::Bool(true)), "true");
    assert_eq!(OtherType::Bool.to_literal(&Json::Bool(false)), "false");
    assert_eq!(OtherType::String.to_literal(&Json::String("hi".to_string())), "\"hi\".to_string()");
    assert_eq!(OtherType::Str.to_literal(&Json::String("hi".to_string())), "\"hi\"");
}

fn path(name: &str, arguments: Arguments) -> Ty {
    Ty::Path {
        qself: None,
        path: Path { segments: vec![Segment { ident: name.to_string(), arguments }] },
    }
}

fn plain(name: &str) -> Ty {
    path(name, Arguments::Plain)
}

#[test]
fn types_written_back() {
    let nested = path(
        "Vec",
        Arguments::Angle(vec![GenericArg::Type(path("Option", Arguments::Angle(vec![GenericArg::Type(plain("i32"))])))]),
    );
    assert_eq!(type_to_string(&nested), "Vec<Option<i32>>");
    let reference = Ty::Reference { lifetime: None, mutable: false, elem: Box::new(plain("str")) };
    assert_eq!(type_to_string(&reference), "&str");
    assert_eq!(type_to_string(&Ty::Tuple(vec![plain("i32"), plain("String")])), "(i32, String)");
    assert_eq!(type_to_string(&Ty::Tuple(vec![])), "()");
    assert_eq!(type_to_string(&Ty::Slice(Box::new(plain("u8")))), "Unknown");
    let map = path("HashMap", Arguments::Angle(vec![GenericArg::Type(plain("String")), GenericArg::Type(plain("u8"))]));
    assert_eq!(type_to_string(&map), "HashMap<String, u8>");
    let cow = path("Cow", Arguments::Angle(vec![GenericArg::Lifetime("a".to_string()), GenericArg::Type(plain("str"))]));
    assert_eq!(type_to_string(&cow), "Cow<str>");
    let only_lifetime = path("Ref", Arguments::Angle(vec![GenericArg::Lifetime("a".to_string())]));
    assert_eq!(type_to_string(&only_lifetime), "Ref");
}

#[test]
fn field_names() {
    let field = NamedField { attrs: vec![], vis: Visibility::Public, ident: "width".to_string(), ty: plain("u32") };
    assert_eq!(field.field_name(), "width");
}

#[test]
fn pages_reveal_a_page_at_a_time() {
    let mut pages = Pages::new(38, 100);
    assert_eq!(pages.revealed, 38);
    assert!(!pages.complete());
    assert!(pages.paged(38));
    assert!(!pages.paged(37));
    assert_eq!(pages.advance(), 38);
    assert_eq!(pages.revealed, 76);
    assert_eq!(pages.advance(), 76);
    assert_eq!(pages.revealed, 100);
    assert!(pages.complete());
    assert_eq!(pages.advance(), 100);
    assert_eq!(pages.revealed, 100);
    assert_eq!(Pages::new(38, 5).revealed, 5);
}

#[test]
fn rotation_moves_to_the_next_view() {
    assert_eq!(rotation(&vec![false, true]), Some((0, 1)));
    assert_eq!(rotation(&vec![true, false, true]), Some((1, 2)));
    assert_eq!(rotation(&vec![true, true, false]), Some((2, 0)));
    assert_eq!(rotation(&vec![true, true]), Some((0, 1)));
    assert_eq!(rotation(&vec![false]), None);
    assert_eq!(rotation(&vec![]), None);
}

#[test]
fn theme_toggle() {
    assert!(is_dark(Some("dark"), false));
    assert!(is_dark(None, true));
    assert!(!is_dark(Some("light"), true));
    assert!(!is_dark(None, false));
    assert_eq!(toggled(None, true), "light");
    assert_eq!(toggled(Some("light"), true), "dark");
    assert_eq!(toggled(Some("dark"), false), "light");
}

#[test]
fn document_error_messages() {
    assert_eq!(Error::Element { name: "div".to_string() }.message(), "failed to create element 'div'");
    assert_eq!(Error::Attribute { key: "id".to_string() }.message(), "failed to set attribute 'id' on element");
    assert_eq!(Error::Append.message(), "failed to append child to parent");
    assert_eq!(Error::Stack.message(), "emitter stack underflow");
    assert_eq!(Error::Stack.help(), "ensure open and close calls are balanced");
    assert_eq!(Error::Append.help(), "ensure the DOM tree is valid");
}

use generation::interaction::{fragment, intercepts, local};

#[test]
fn links_handled_in_page() {
    assert!(intercepts("guide/index.html"));
    assert!(intercepts("../generation/"));
    assert!(intercepts("PAGE.HTML"));
    assert!(!intercepts("https://example.com/page.html"));
    assert!(!intercepts("#section"));
    assert!(!intercepts("style.css"));
    assert!(!intercepts(""));
}

#[test]
fn local_links() {
    assert!(local("/docs/", "https://site"));
    assert!(local("./a.html", "https://site"));
    assert!(local("https://site/a.html", "https://site"));
    assert!(!local("https://other/a.html", "https://site"));
    assert!(local("page.html", "https://site"));
    assert!(!local("ftp://files/x", "https://site"));
}

#[test]
fn fragments_after_the_last_hash() {
    assert_eq!(fragment("page.html#top"), Some("top".to_string()));
    assert_eq!(fragment("a#b#c"), Some("c".to_string()));
    assert_eq!(fragment("page.html#"), Some(String::new()));
    assert_eq!(fragment("page.html"), None);
}

#[test]
fn page_titles_carry_their_family() {
    assert_eq!(page_title(Context::Vantle, "Vantle"), "Vantle");
    assert_eq!(page_title(Context::Molten, "Molten"), "Molten");
    assert_eq!(page_title(Context::Molten, "Info"), "Molten.Info");
    assert_eq!(page_title(Context::Vantle, "Info"), "Vantle.Info");
    assert_eq!(page_title(Context::Generation, "Generation"), "Vantle.Generation");
    assert_eq!(page_title(Context::Autotest, "Vantle"), "Vantle.Vantle");
    assert_eq!(page_title(Context::Vantle, "Molten"), "Vantle.Molten");
}

#[test]
fn typing_in_text_fields() {
    assert!(active(Some("INPUT")));
    assert!(active(Some("TEXTAREA")));
    assert!(!active(Some("input")));
    assert!(!active(Some("DIV")));
    assert!(!active(None));
}

#[test]
fn escape_collapses_only_outside_fields() {
    assert!(dismisses("Escape", false, true));
    assert!(!dismisses("Escape", true, true));
    assert!(!dismisses("Escape", false, false));
    assert!(!dismisses("Enter", false, true));
}

fn headings(items: &[(&str, bool)]) -> Vec<(String, bool)> {
    items.iter().map(|(id, reached)| (id.to_string(), *reached)).collect()
}

#[test]
fn current_heading_is_the_last_reached() {
    assert_eq!(current(&headings(&[("a", true), ("b", true), ("c", false)])), Some("b".to_string()));
    assert_eq!(current(&headings(&[("a", true), ("", true)])), Some("a".to_string()));
    assert_eq!(current(&headings(&[("a", false), ("b", false)])), None);
    assert_eq!(current(&headings(&[])), None);
}

#[test]
fn outline_marks_follow_the_current_heading() {
    let links: Vec<String> = vec!["#a".to_string(), "#b".to_string(), "b".to_string()];
    assert_eq!(indicators(Some("b"), &links), vec![Indicator::Remove, Indicator::Add, Indicator::Remove]);
    assert_eq!(indicators(None, &links), vec![Indicator::Add, Indicator::Keep, Indicator::Keep]);
    assert_eq!(indicators(Some("a"), &vec![]), Vec::<Indicator>::new());
}

#[test]
fn links_move_to_the_new_root() {
    assert_eq!(rebase("../a/index.html", "../", "../../"), Some("../../a/index.html".to_string()));
    assert_eq!(rebase("/x.html", "../", "../../"), None);
    assert_eq!(rebase("../a.html", "../", "../"), None);
    assert_eq!(rebase("a.html", "", "../"), Some("../a.html".to_string()));
}

#[test]
fn failing_groups_come_first() {
    let groups = vec![vec![true, true], vec![true, false], vec![], vec![false], vec![true]];
    let a = arrange(&groups);
    assert_eq!(a.order, vec![1, 3, 0, 2, 4]);
    assert_eq!(a.failures, 2);
    assert_eq!(a.passed, 4);
    assert_eq!(a.failed, 2);
}

#[test]
fn arrangement_of_no_groups() {
    let a = arrange(&vec![]);
    assert!(a.order.is_empty());
    assert_eq!((a.failures, a.passed, a.failed), (0, 0, 0));
}

fn extensions(items: &[Option<&str>]) -> Vec<Option<String>> {
    items.iter().map(|e| e.map(|s| s.to_string())).collect()
}

#[test]
fn data_paths_pick_the_last_of_each_kind() {
    assert_eq!(partition(&extensions(&[Some("rs"), Some("json"), None, Some("json")])), Ok((3, 0)));
    assert_eq!(partition(&extensions(&[Some("rs"), Some("txt")])), Err(Missing::Execution));
    assert_eq!(partition(&extensions(&[Some("json")])), Err(Missing::Template));
    assert_eq!(partition(&extensions(&[])), Err(Missing::Execution));
    assert_eq!(Missing::Execution.message(), "no execution json found in data paths");
    assert_eq!(Missing::Template.help(), "provide a .rs file via --data");
}

#[test]
fn page_resources_follow_the_root() {
    let r = resources(Context::Generation, "../../");
    assert_eq!(r.favicon, "../../resource/favicon.ico");
    assert_eq!(r.stylesheet, "../../resource/system/document/vantle.css");
    assert_eq!(r.script, "../../resource/system/document/compute.js");
    assert_eq!(r.logo, "../../resource/logo.png");
    assert_eq!(r.alternate, "Vantle");
    let m = resources(Context::Molten, "");
    assert_eq!(m.logo, "Molten/resource/logo.png");
    assert_eq!(m.alternate, "Molten");
}
