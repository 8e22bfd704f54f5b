//! Output documents: the HTML shell, the server-rendered page with its
//! parameter carrier, and the hydration script, each stated character for
//! character. Writing them to a stream or a file is the caller's business.

use vstd::prelude::*;

use crate::json::params_json;
use crate::json::params_to_json;

verus! {

/// One response: the HTML document, the JavaScript to serve beside it, and
/// the route parameters that produced them.
pub struct OutputData {
    pub html: String,
    pub js: String,
    pub params: Vec<(String, String)>,
}

/// An error rendered for structured output.
pub struct ErrorOutput {
    pub error: ErrorDetails,
}

/// The kind and message of a rendered error.
pub struct ErrorDetails {
    pub kind: String,
    pub message: String,
}

/// How output is to be written: a structured document or plain text.
#[derive(PartialEq, Eq, Structural, Debug, Clone, Copy)]
pub enum OutputFormat {
    Json,
    Stdout,
}

/// Chooses where output goes by the format selector's text.
pub struct OutputManager {
    pub format: OutputFormat,
}

/// The format a selector string names; anything unknown falls back to the
/// structured form.
pub open spec fn spec_parse_format(s: Seq<char>) -> OutputFormat {
    if s == "json"@ {
        OutputFormat::Json
    } else if s == "stdout"@ {
        OutputFormat::Stdout
    } else {
        OutputFormat::Json
    }
}

impl OutputManager {
    /// A manager for the named format; faithful to `spec_parse_format`.
    pub fn new(format: String) -> (r: OutputManager)
        ensures
            r.format == spec_parse_format(format@),
    {
        if crate::strutil::str_eq(format.as_str(), "json") {
            OutputManager { format: OutputFormat::Json }
        } else if crate::strutil::str_eq(format.as_str(), "stdout") {
            OutputManager { format: OutputFormat::Stdout }
        } else {
            OutputManager { format: OutputFormat::Json }
        }
    }
}

/// The empty HTML shell: a document whose body holds only the root element.
pub open spec fn html_shell_text() -> Seq<char> {
    "<!DOCTYPE html>\n<html lang=\"en\">\n<head>\n    <meta charset=\"UTF-8\">\n    <meta name=\"viewport\" content=\"width=device-width, initial-scale=1.0\">\n    <title>SSR App</title>\n</head>\n<body>\n    <div id=\"root\"></div>\n</body>\n</html>"@
}

/// Produces the empty HTML shell.
pub fn generate_html_shell() -> (r: String)
    ensures
        r@ == html_shell_text(),
{
    String::from_str(
        "<!DOCTYPE html>\n<html lang=\"en\">\n<head>\n    <meta charset=\"UTF-8\">\n    <meta name=\"viewport\" content=\"width=device-width, initial-scale=1.0\">\n    <title>SSR App</title>\n</head>\n<body>\n    <div id=\"root\"></div>\n</body>\n</html>",
    )
}

/// The script element that carries the bound route parameters to the client.
pub open spec fn params_script_text(ps: Seq<(Seq<char>, Seq<char>)>) -> Seq<char> {
    "<script>window.__TAVO_PARAMS__ = "@ + params_json(ps) + ";</script>"@
}

/// The full HTML document around server-rendered content: the head carries
/// the parameter script, the root element carries the content.
pub open spec fn html_with_content_text(
    content: Seq<char>,
    ps: Seq<(Seq<char>, Seq<char>)>,
) -> Seq<char> {
    "<!DOCTYPE html>\n<html lang=\"en\">\n<head>\n    <meta charset=\"UTF-8\">\n    <meta name=\"viewport\" content=\"width=device-width, initial-scale=1.0\">\n    <title>SSR App</title>\n    "@
        + params_script_text(ps)
        + "\n</head>\n<body>\n    <div id=\"root\">"@ + content + "</div>\n</body>\n</html>"@
}

/// Produces the document around server-rendered content; faithful to
/// `html_with_content_text`.
pub fn generate_html_with_content(content: &str, params: &Vec<(String, String)>) -> (r: String)
    ensures
        r@ == html_with_content_text(content@, params.deep_view()),
{
    let json = params_to_json(params);
    let mut out = String::new();
    out.append(
        "<!DOCTYPE html>\n<html lang=\"en\">\n<head>\n    <meta charset=\"UTF-8\">\n    <meta name=\"viewport\" content=\"width=device-width, initial-scale=1.0\">\n    <title>SSR App</title>\n    ",
    );
    out.append("<script>window.__TAVO_PARAMS__ = ");
    out.append(json.as_str());
    out.append(";</script>");
    out.append("\n</head>\n<body>\n    <div id=\"root\">");
    out.append(content);
    out.append("</div>\n</body>\n</html>");
    proof {
        assert(out@ =~= html_with_content_text(content@, params.deep_view()));
    }
    out
}

/// The hydration script: the transpiled code followed by a bootstrap that
/// reads the parameter carrier the HTML document set and mounts the app at
/// the root element.
pub open spec fn hydration_js_text(code: Seq<char>) -> Seq<char> {
    code
        + "\n\n// Hydration bootstrap\nif (typeof window !== 'undefined') {\n  const root = document.getElementById('root');\n  const params = window.__TAVO_PARAMS__ || {};\n  if (root) {\n    const { createRoot } = require('react-dom/client');\n    createRoot(root).render(React.createElement(App, { params }));\n  }\n}\n"@
}

/// Produces the hydration script; faithful to `hydration_js_text`. The
/// parameters travel in the HTML document's carrier script, not here.
pub fn generate_hydration_js(code: &str, params: &Vec<(String, String)>) -> (r: String)
    ensures
        r@ == hydration_js_text(code@),
{
    let mut out = String::new();
    out.append(code);
    out.append(
        "\n\n// Hydration bootstrap\nif (typeof window !== 'undefined') {\n  const root = document.getElementById('root');\n  const params = window.__TAVO_PARAMS__ || {};\n  if (root) {\n    const { createRoot } = require('react-dom/client');\n    createRoot(root).render(React.createElement(App, { params }));\n  }\n}\n",
    );
    proof {
        assert(out@ =~= hydration_js_text(code@));
    }
    out
}

/// Copies a parameter list.
pub fn clone_params(params: &Vec<(String, String)>) -> (r: Vec<(String, String)>)
    ensures
        r.deep_view() == params.deep_view(),
{
    let n = params.len();
    let mut out: Vec<(String, String)> = Vec::new();
    proof {
        assert(out.deep_view() =~= params.deep_view().take(0));
    }
    let mut i: usize = 0;
    while i < n
        invariant
            i <= n,
            n == params.len(),
            out.deep_view() == params.deep_view().take(i as int),
        decreases n - i,
    {
        let ghost prev = out.deep_view();
        let k = params[i].0.clone();
        let v = params[i].1.clone();
        out.push((k, v));
        proof {
            assert(out.deep_view() =~= prev.push(params.deep_view()[i as int]));
            assert(params.deep_view().take(i as int + 1) =~= prev.push(
                params.deep_view()[i as int],
            ));
        }
        i += 1;
    }
    proof {
        assert(params.deep_view().take(n as int) =~= params.deep_view());
    }
    out
}

/// The output of a hydration compile: the empty shell and the hydration
/// code, with the parameters carried alongside.
pub fn generate_hydration_output(transpiled_code: &str, params: &Vec<(String, String)>) -> (r:
    OutputData)
    ensures
        r.html@ == html_shell_text(),
        r.js@ == transpiled_code@,
        r.params.deep_view() == params.deep_view(),
{
    OutputData {
        html: generate_html_shell(),
        js: String::from_str(transpiled_code),
        params: clone_params(params),
    }
}

/// The output of a server-render compile: the document around the rendered
/// content, and the hydration script for the client.
pub fn generate_ssr_output(
    rendered_html: &str,
    transpiled_code: &str,
    params: &Vec<(String, String)>,
) -> (r: OutputData)
    ensures
        r.html@ == html_with_content_text(rendered_html@, params.deep_view()),
        r.js@ == hydration_js_text(transpiled_code@),
        r.params.deep_view() == params.deep_view(),
{
    OutputData {
        html: generate_html_with_content(rendered_html, params),
        js: generate_hydration_js(transpiled_code, params),
        params: clone_params(params),
    }
}

} // verus!
