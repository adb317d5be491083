//! Entries of the documentation index: where each generation page lives.

use vstd::prelude::*;

verus! {

/// The documentation family a page belongs to.
#[derive(Debug, PartialEq, Eq, Structural, Clone, Copy)]
pub enum Context {
    Vantle,
    Molten,
    Generation,
    Autotest,
}

impl Context {
    /// The name of the context as it appears in page metadata.
    pub open spec fn name(self) -> Seq<char> {
        match self {
            Context::Vantle => "vantle"@,
            Context::Molten => "molten"@,
            Context::Generation => "generation"@,
            Context::Autotest => "autotest"@,
        }
    }

    /// The name of the context as it appears in page metadata.
    pub fn as_str(&self) -> (s: &'static str)
        ensures
            s@ == self.name(),
    {
        match self {
            Context::Vantle => "vantle",
            Context::Molten => "molten",
            Context::Generation => "generation",
            Context::Autotest => "autotest",
        }
    }
}

/// A page of the documentation: the root prefix it is reached under, its path
/// below the root, its context and its identifier.
pub struct Index {
    pub root: String,
    pub path: String,
    pub context: Context,
    pub identifier: String,
}

impl Index {
    /// An index entry made of its parts.
    pub fn new(root: &str, path: &str, context: Context, identifier: &str) -> (i: Index)
        ensures
            i.root@ == root@,
            i.path@ == path@,
            i.context == context,
            i.identifier@ == identifier@,
    {
        Index {
            root: root.to_owned(),
            path: path.to_owned(),
            context,
            identifier: identifier.to_owned(),
        }
    }
}

/// Whether `i` is the entry with these parts.
pub open spec fn entry(i: Index, root: Seq<char>, path: Seq<char>, context: Context, identifier: Seq<char>) -> bool {
    &&& i.root@ == root
    &&& i.path@ == path
    &&& i.context == context
    &&& i.identifier@ == identifier
}

/// The generation overview page.
pub fn generation(root: &str) -> (i: Index)
    ensures
        entry(i, root@, "system/generation/"@, Context::Generation, "generation"@),
{
    Index::new(root, "system/generation/", Context::Generation, "generation")
}

/// The extraction page.
pub fn extract(root: &str) -> (i: Index)
    ensures
        entry(i, root@, "system/generation/extract.html"@, Context::Generation, "extract"@),
{
    Index::new(root, "system/generation/extract.html", Context::Generation, "extract")
}

/// The autotest overview page.
pub fn autotest(root: &str) -> (i: Index)
    ensures
        entry(i, root@, "system/generation/rust/"@, Context::Autotest, "autotest"@),
{
    Index::new(root, "system/generation/rust/", Context::Autotest, "autotest")
}

/// The function testing page.
pub fn function(root: &str) -> (i: Index)
    ensures
        entry(i, root@, "system/generation/rust/function.html"@, Context::Autotest, "function"@),
{
    Index::new(root, "system/generation/rust/function.html", Context::Autotest, "function")
}

/// The performance testing page.
pub fn performance(root: &str) -> (i: Index)
    ensures
        entry(
            i,
            root@,
            "system/generation/rust/performance.html"@,
            Context::Autotest,
            "performance"@,
        ),
{
    Index::new(root, "system/generation/rust/performance.html", Context::Autotest, "performance")
}

/// The web generation page.
pub fn web(root: &str) -> (i: Index)
    ensures
        entry(i, root@, "system/generation/web/"@, Context::Generation, "web"@),
{
    Index::new(root, "system/generation/web/", Context::Generation, "web")
}

/// The title a page is shown under: the family's own front page keeps its
/// title; every other page is prefixed by its family, `Molten.` for Molten
/// pages and `Vantle.` for the rest.
pub open spec fn titled(context: Context, title: Seq<char>) -> Seq<char> {
    if (context == Context::Vantle && title == "Vantle"@) || (context == Context::Molten && title == "Molten"@) {
        title
    } else if context == Context::Molten {
        "Molten."@ + title
    } else {
        "Vantle."@ + title
    }
}

/// The title a page is shown under.
pub fn page_title(context: Context, title: &str) -> (r: String)
    ensures
        r@ == titled(context, title@),
{
    let own = match context {
        Context::Vantle => crate::starlark::same(title, "Vantle"),
        Context::Molten => crate::starlark::same(title, "Molten"),
        _ => false,
    };
    let mut out: Vec<char> = Vec::new();
    if !own {
        match context {
            Context::Molten => crate::text::extend_str(&mut out, "Molten."),
            _ => crate::text::extend_str(&mut out, "Vantle."),
        }
    }
    crate::text::extend_str(&mut out, title);
    crate::text::string_of(&out)
}

/// The files a page links to, each under the root prefix: its icon,
/// stylesheet and script, and the logo of its family with the logo's
/// alternative text.
pub struct Resources {
    pub favicon: String,
    pub stylesheet: String,
    pub script: String,
    pub logo: String,
    pub alternate: String,
}

/// The logo of a family below the root: Molten's own, else Vantle's.
pub open spec fn logo_path(context: Context) -> Seq<char> {
    if context == Context::Molten {
        "Molten/resource/logo.png"@
    } else {
        "resource/logo.png"@
    }
}

fn prefixed(root: &str, path: &str) -> (r: String)
    ensures
        r@ == root@ + path@,
{
    let mut out: Vec<char> = Vec::new();
    crate::text::extend_str(&mut out, root);
    crate::text::extend_str(&mut out, path);
    crate::text::string_of(&out)
}

/// The files a page of the family `context` links to under `root`.
pub fn resources(context: Context, root: &str) -> (r: Resources)
    ensures
        r.favicon@ == root@ + "resource/favicon.ico"@,
        r.stylesheet@ == root@ + "resource/system/document/vantle.css"@,
        r.script@ == root@ + "resource/system/document/compute.js"@,
        r.logo@ == root@ + logo_path(context),
        r.alternate@ == if context == Context::Molten { "Molten"@ } else { "Vantle"@ },
{
    let molten = match context {
        Context::Molten => true,
        _ => false,
    };
    Resources {
        favicon: prefixed(root, "resource/favicon.ico"),
        stylesheet: prefixed(root, "resource/system/document/vantle.css"),
        script: prefixed(root, "resource/system/document/compute.js"),
        logo: if molten { prefixed(root, "Molten/resource/logo.png") } else { prefixed(root, "resource/logo.png") },
        alternate: if molten { String::from_str("Molten") } else { String::from_str("Vantle") },
    }
}

} // verus!
