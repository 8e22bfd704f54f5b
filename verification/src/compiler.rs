//! The pure steps of compiling a route: naming a module's default-exported
//! component, combining layout and page code, locating a route's page file,
//! and wrapping compiled output for hydration or delivery. Parsing,
//! type-stripping and code emission belong to the source transformer, an
//! external collaborator.

use vstd::prelude::*;

use crate::error::SSRError;
use crate::strutil::str_eq;
use crate::strutil::word_end;
use crate::strutil::word_end_from;
use crate::tree::AppTree;

verus! {

/// One compiled layout: its path, the component it exports, and its
/// executable text.
#[derive(Debug, Clone)]
pub struct CompiledLayout {
    pub path: String,
    pub component_name: String,
    pub compiled_js: String,
}

/// A route compiled for rendering: the route, its layouts outermost first,
/// the page's executable text, and everything concatenated in
/// layout-then-page order.
#[derive(Debug, Clone)]
pub struct CompiledComponent {
    pub route: String,
    pub layouts: Vec<CompiledLayout>,
    pub page_component: String,
    pub combined_js: String,
}

/// Whitespace as the component-name scan counts it: line whitespace or a
/// line break.
pub open spec fn is_wsn(c: char) -> bool {
    c == ' ' || c == '\t' || c == '\r' || c == '\n'
}

/// The first position at or after `i` past this whitespace.
pub open spec fn skip_wsn_from(s: Seq<char>, i: int) -> int
    decreases s.len() - i when 0 <= i <= s.len()
{
    if i >= s.len() {
        i
    } else if is_wsn(s[i]) {
        skip_wsn_from(s, i + 1)
    } else {
        i
    }
}

pub proof fn lemma_skip_wsn_from(s: Seq<char>, i: int)
    requires
        0 <= i <= s.len(),
    ensures
        i <= skip_wsn_from(s, i) <= s.len(),
    decreases s.len() - i,
{
    if i < s.len() && is_wsn(s[i]) {
        lemma_skip_wsn_from(s, i + 1);
    }
}

/// Advances past whitespace and line breaks; faithful to `skip_wsn_from`.
fn skip_wsn(s: &str, i: usize) -> (r: usize)
    requires
        i <= s@.len(),
    ensures
        r == skip_wsn_from(s@, i as int),
        i <= r <= s@.len(),
{
    let n = s.unicode_len();
    let mut j = i;
    while j < n
        invariant
            i <= j <= n,
            n == s@.len(),
            skip_wsn_from(s@, i as int) == skip_wsn_from(s@, j as int),
        decreases n - j,
    {
        let c = s.get_char(j);
        if !(c == ' ' || c == '\t' || c == '\r' || c == '\n') {
            proof {
                lemma_skip_wsn_from(s@, j as int);
            }
            return j;
        }
        j += 1;
    }
    proof {
        lemma_skip_wsn_from(s@, j as int);
    }
    j
}

/// The component name declared by `export default function <name>` starting
/// at position `i`, with at least one whitespace character between the
/// keywords; nothing when the text at `i` does not read that way.
pub open spec fn try_name_at(s: Seq<char>, i: int) -> Option<Seq<char>> {
    if i + 6 <= s.len() && s.subrange(i, i + 6) == "export"@ {
        let j = skip_wsn_from(s, i + 6);
        if j > i + 6 && j + 7 <= s.len() && s.subrange(j, j + 7) == "default"@ {
            let k = skip_wsn_from(s, j + 7);
            if k > j + 7 && k + 8 <= s.len() && s.subrange(k, k + 8) == "function"@ {
                let m = skip_wsn_from(s, k + 8);
                if m > k + 8 {
                    let e = word_end_from(s, m);
                    if e > m {
                        Some(s.subrange(m, e))
                    } else {
                        None
                    }
                } else {
                    None
                }
            } else {
                None
            }
        } else {
            None
        }
    } else {
        None
    }
}

/// The name captured by the leftmost occurrence of the export declaration at
/// or after position `i`.
pub open spec fn first_name_from(s: Seq<char>, i: int) -> Option<Seq<char>>
    decreases s.len() - i when 0 <= i <= s.len()
{
    if i >= s.len() {
        None
    } else {
        match try_name_at(s, i) {
            Some(n) => Some(n),
            None => first_name_from(s, i + 1),
        }
    }
}

/// The inferred component name of a module: the name of its default-exported
/// function, or `DefaultComponent` when none is declared that way.
pub open spec fn spec_component_name(s: Seq<char>) -> Seq<char> {
    match first_name_from(s, 0) {
        Some(n) => n,
        None => "DefaultComponent"@,
    }
}

/// Reads the export declaration at position `i`; faithful to `try_name_at`.
fn name_at(s: &str, i: usize) -> (r: Option<String>)
    requires
        i <= s@.len(),
    ensures
        r.deep_view() == try_name_at(s@, i as int),
{
    let n = s.unicode_len();
    if n - i < 6 {
        return None;
    }
    if !str_eq(s.substring_char(i, i + 6), "export") {
        return None;
    }
    let j = skip_wsn(s, i + 6);
    if !(j > i + 6) {
        return None;
    }
    if n - j < 7 {
        return None;
    }
    if !str_eq(s.substring_char(j, j + 7), "default") {
        return None;
    }
    let k = skip_wsn(s, j + 7);
    if !(k > j + 7) {
        return None;
    }
    if n - k < 8 {
        return None;
    }
    if !str_eq(s.substring_char(k, k + 8), "function") {
        return None;
    }
    let m = skip_wsn(s, k + 8);
    if !(m > k + 8) {
        return None;
    }
    let e = word_end(s, m);
    if e > m {
        Some(String::from_str(s.substring_char(m, e)))
    } else {
        None
    }
}

/// Infers the component name a module's text declares; faithful to
/// `spec_component_name`.
pub fn extract_component_name(source: &str) -> (r: String)
    ensures
        r@ == spec_component_name(source@),
{
    let n = source.unicode_len();
    let mut i: usize = 0;
    while i < n
        invariant
            i <= n,
            n == source@.len(),
            first_name_from(source@, 0) == first_name_from(source@, i as int),
        decreases n - i,
    {
        match name_at(source, i) {
            Some(name) => {
                return name;
            },
            None => {
            },
        }
        i += 1;
    }
    String::from_str("DefaultComponent")
}

/// The layouts' code, each followed by a line break, then the page's code.
pub open spec fn combined_js_text(layout_js: Seq<Seq<char>>, page_js: Seq<char>) -> Seq<char>
    decreases layout_js.len(),
{
    if layout_js.len() == 0 {
        page_js
    } else {
        layout_js[0] + seq!['\n'] + combined_js_text(layout_js.skip(1), page_js)
    }
}

/// The compiled code of each layout, in chain order.
pub open spec fn layout_js_of(layouts: Seq<CompiledLayout>) -> Seq<Seq<char>> {
    layouts.map_values(|l: CompiledLayout| l.compiled_js@)
}

/// Concatenates layout code and page code in layout-then-page order.
pub fn combine_components(layouts: &Vec<CompiledLayout>, page_js: &str) -> (r: String)
    ensures
        r@ == combined_js_text(layout_js_of(layouts@), page_js@),
{
    let mut out = String::new();
    let n = layouts.len();
    let ghost ljs = layout_js_of(layouts@);
    let mut i: usize = 0;
    proof {
        assert(ljs.skip(0) =~= ljs);
        assert(combined_js_text(ljs, page_js@) =~= out@ + combined_js_text(ljs, page_js@));
    }
    while i < n
        invariant
            i <= n,
            n == layouts.len(),
            ljs == layout_js_of(layouts@),
            combined_js_text(ljs, page_js@) == out@ + combined_js_text(
                ljs.skip(i as int),
                page_js@,
            ),
        decreases n - i,
    {
        let ghost before = out@;
        out.append(layouts[i].compiled_js.as_str());
        out.append("\n");
        proof {
            reveal_strlit("\n");
            assert(ljs[i as int] == layouts@[i as int].compiled_js@);
            assert(ljs.skip(i as int)[0] == ljs[i as int]);
            assert(ljs.skip(i as int).skip(1) =~= ljs.skip(i as int + 1));
            assert(out@ =~= before + ljs[i as int] + seq!['\n']);
            assert(combined_js_text(ljs, page_js@) =~= out@ + combined_js_text(
                ljs.skip(i as int + 1),
                page_js@,
            ));
        }
        i += 1;
    }
    proof {
        assert(ljs.skip(n as int) =~= Seq::<Seq<char>>::empty());
    }
    out.append(page_js);
    proof {
        assert(out@ =~= combined_js_text(ljs, page_js@));
    }
    out
}

impl CompiledComponent {
    /// Assembles a compiled route from its pieces, establishing the type's
    /// invariant: `combined_js` is the layouts' code followed by the page's,
    /// in layout-then-page order.
    pub fn assemble(route: String, layouts: Vec<CompiledLayout>, page_js: String) -> (r:
        CompiledComponent)
        ensures
            r.route == route,
            r.layouts == layouts,
            r.page_component == page_js,
            r.combined_js@ == combined_js_text(layout_js_of(layouts@), page_js@),
    {
        let combined_js = combine_components(&layouts, page_js.as_str());
        CompiledComponent { route, layouts, page_component: page_js, combined_js }
    }
}

/// All leading `/` characters removed.
pub open spec fn trim_leading_slashes(s: Seq<char>) -> Seq<char>
    decreases s.len(),
{
    if s.len() > 0 && s[0] == '/' {
        trim_leading_slashes(s.skip(1))
    } else {
        s
    }
}

/// The page file a route names under the conventional `app` directory.
pub open spec fn page_path_of(route: Seq<char>) -> Seq<char> {
    let trimmed = trim_leading_slashes(route);
    if route == "/"@ || trimmed.len() == 0 {
        "app/page.tsx"@
    } else {
        "app/"@ + trimmed + "/page.tsx"@
    }
}

/// Resolves the page file for a route under the `app` directory, against the
/// project listing: the path when the file exists, a file-not-found error
/// naming that path when it does not.
pub fn resolve_page_path(route: &str, tree: &AppTree) -> (r: Result<String, SSRError>)
    ensures
        match r {
            Ok(p) => p@ == page_path_of(route@) && tree.has_path(page_path_of(route@)),
            Err(e) => {
                &&& e matches SSRError::FileNotFound(p)
                &&& p@ == page_path_of(route@)
                &&& !tree.has_path(page_path_of(route@))
            },
        },
{
    let n = route.unicode_len();
    let mut t: usize = 0;
    proof {
        assert(route@.skip(0) =~= route@);
    }
    while t < n && route.get_char(t) == '/'
        invariant
            t <= n,
            n == route@.len(),
            trim_leading_slashes(route@) == trim_leading_slashes(route@.skip(t as int)),
        decreases n - t,
    {
        proof {
            assert(route@.skip(t as int)[0] == '/');
            assert(route@.skip(t as int).skip(1) =~= route@.skip(t as int + 1));
        }
        t += 1;
    }
    proof {
        if t == n {
            assert(route@.skip(t as int) =~= Seq::<char>::empty());
        }
        assert(trim_leading_slashes(route@) =~= route@.skip(t as int));
    }
    let trimmed = route.substring_char(t, n);
    let mut path = String::new();
    if str_eq(route, "/") || trimmed.unicode_len() == 0 {
        path.append("app/page.tsx");
        proof {
            assert(path@ =~= page_path_of(route@));
        }
    } else {
        path.append("app/");
        path.append(trimmed);
        path.append("/page.tsx");
        proof {
            assert(path@ =~= page_path_of(route@));
        }
    }
    if tree.contains(path.as_str()) {
        Ok(path)
    } else {
        Err(SSRError::FileNotFound(path))
    }
}

/// The compiled route wrapped for client hydration: the client runtime
/// import, the combined code, and a mount at the root element.
pub open spec fn hydration_wrap_text(combined_js: Seq<char>) -> Seq<char> {
    "import { hydrateRoot } from 'react-dom/client';\n"@ + combined_js
        + "\nconst container = document.getElementById('root');\nif (container) {\n  hydrateRoot(container, React.createElement(App));\n}\n"@
}

/// Wraps a compiled route for hydration; faithful to `hydration_wrap_text`.
pub fn compile_for_hydration(component: &CompiledComponent) -> (r: Result<String, SSRError>)
    ensures
        r matches Ok(js) && js@ == hydration_wrap_text(component.combined_js@),
{
    let mut out = String::new();
    out.append("import { hydrateRoot } from 'react-dom/client';\n");
    out.append(component.combined_js.as_str());
    out.append(
        "\nconst container = document.getElementById('root');\nif (container) {\n  hydrateRoot(container, React.createElement(App));\n}\n",
    );
    proof {
        assert(out@ =~= hydration_wrap_text(component.combined_js@));
    }
    Ok(out)
}

/// The delivered document: rendered HTML in the root element, the hydration
/// script beside it.
pub open spec fn html_and_script_text(html: Seq<char>, js: Seq<char>) -> Seq<char> {
    "<!DOCTYPE html>\n<html lang=\"en\">\n<head>\n    <meta charset=\"UTF-8\">\n    <meta name=\"viewport\" content=\"width=device-width, initial-scale=1.0\">\n    <title>SSR App</title>\n</head>\n<body>\n    <div id=\"root\">"@
        + html + "</div>\n    <script>"@ + js + "</script>\n</body>\n</html>"@
}

/// Joins rendered HTML and its script into one document; faithful to
/// `html_and_script_text`.
pub fn combine_html_and_script(html: &str, js: &str) -> (r: Result<String, SSRError>)
    ensures
        r matches Ok(page) && page@ == html_and_script_text(html@, js@),
{
    let mut out = String::new();
    out.append(
        "<!DOCTYPE html>\n<html lang=\"en\">\n<head>\n    <meta charset=\"UTF-8\">\n    <meta name=\"viewport\" content=\"width=device-width, initial-scale=1.0\">\n    <title>SSR App</title>\n</head>\n<body>\n    <div id=\"root\">",
    );
    out.append(html);
    out.append("</div>\n    <script>");
    out.append(js);
    out.append("</script>\n</body>\n</html>");
    proof {
        assert(out@ =~= html_and_script_text(html@, js@));
    }
    Ok(out)
}

} // verus!
