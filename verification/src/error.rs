//! The error taxonomy of the library, and the text each error presents.

use vstd::prelude::*;

verus! {

/// Everything that can go wrong while resolving, bundling, compiling or
/// rendering a route. Collaborator messages are carried through verbatim.
#[derive(Debug, Clone)]
pub enum SSRError {
    /// The app root is missing or is not a directory.
    InvalidAppDir(String),
    /// No page file's pattern matches the requested route.
    RouteNotFound(String),
    /// A recursed import could not be located on disk: the offending
    /// specifier, then the importing module.
    UnresolvedImport(String, String),
    /// The source transformer rejected a module.
    TransformFailure(String),
    /// Rendering exceeded the caller's time bound.
    RenderTimeout,
    /// The execution engine ran but the render threw.
    ExecutionFailure(String),
    /// A file named by a route or an import does not exist.
    FileNotFound(String),
    /// A file exists but could not be read: the path, then the cause.
    FileRead(String, String),
    /// Source text could not be parsed.
    ParseError(String),
    /// Executable text could not be emitted.
    CodegenError(String),
    /// The JavaScript runtime failed outside of a render.
    JsRuntime(String),
    /// An unknown compile-type selector.
    InvalidCompileType(String),
    /// An unknown output-format selector.
    InvalidOutputFormat(String),
    /// A route string that does not start with `/`.
    InvalidRoute(String),
    /// A value could not be serialized for output.
    SerializationError(String),
}

/// The text of each error, stated over the carried strings.
pub open spec fn spec_message(e: SSRError) -> Seq<char> {
    match e {
        SSRError::InvalidAppDir(d) => "App directory does not exist: "@ + d@,
        SSRError::RouteNotFound(r) => "No matching page for route: "@ + r@,
        SSRError::UnresolvedImport(s, m) => "Could not resolve import: "@ + s@ + " in "@ + m@,
        SSRError::TransformFailure(m) => "Transform failure: "@ + m@,
        SSRError::RenderTimeout => "Render timed out"@,
        SSRError::ExecutionFailure(m) => "Render failed: "@ + m@,
        SSRError::FileNotFound(p) => "File not found: "@ + p@,
        SSRError::FileRead(p, c) => "Failed to read file "@ + p@ + ": "@ + c@,
        SSRError::ParseError(m) => "Parse error: "@ + m@,
        SSRError::CodegenError(m) => "Code generation error: "@ + m@,
        SSRError::JsRuntime(m) => "JavaScript runtime error: "@ + m@,
        SSRError::InvalidCompileType(t) => "Invalid compile type '"@ + t@
            + "'. Valid options: ssr, hydration, static"@,
        SSRError::InvalidOutputFormat(f) => "Invalid output format '"@ + f@
            + "'. Valid options: json, stdout"@,
        SSRError::InvalidRoute(r) => "Invalid route '"@ + r@ + "'. Routes must start with '/'"@,
        SSRError::SerializationError(m) => "Serialization error: "@ + m@,
    }
}

impl SSRError {
    /// The error rendered as one line of text.
    pub fn message(&self) -> (r: String)
        ensures
            r@ == spec_message(*self),
    {
        let mut out = String::new();
        match self {
            SSRError::InvalidAppDir(d) => {
                out.append("App directory does not exist: ");
                out.append(d.as_str());
            },
            SSRError::RouteNotFound(r) => {
                out.append("No matching page for route: ");
                out.append(r.as_str());
            },
            SSRError::UnresolvedImport(s, m) => {
                out.append("Could not resolve import: ");
                out.append(s.as_str());
                out.append(" in ");
                out.append(m.as_str());
            },
            SSRError::TransformFailure(m) => {
                out.append("Transform failure: ");
                out.append(m.as_str());
            },
            SSRError::RenderTimeout => {
                out.append("Render timed out");
            },
            SSRError::ExecutionFailure(m) => {
                out.append("Render failed: ");
                out.append(m.as_str());
            },
            SSRError::FileNotFound(p) => {
                out.append("File not found: ");
                out.append(p.as_str());
            },
            SSRError::FileRead(p, c) => {
                out.append("Failed to read file ");
                out.append(p.as_str());
                out.append(": ");
                out.append(c.as_str());
            },
            SSRError::ParseError(m) => {
                out.append("Parse error: ");
                out.append(m.as_str());
            },
            SSRError::CodegenError(m) => {
                out.append("Code generation error: ");
                out.append(m.as_str());
            },
            SSRError::JsRuntime(m) => {
                out.append("JavaScript runtime error: ");
                out.append(m.as_str());
            },
            SSRError::InvalidCompileType(t) => {
                out.append("Invalid compile type '");
                out.append(t.as_str());
                out.append("'. Valid options: ssr, hydration, static");
            },
            SSRError::InvalidOutputFormat(f) => {
                out.append("Invalid output format '");
                out.append(f.as_str());
                out.append("'. Valid options: json, stdout");
            },
            SSRError::InvalidRoute(r) => {
                out.append("Invalid route '");
                out.append(r.as_str());
                out.append("'. Routes must start with '/'");
            },
            SSRError::SerializationError(m) => {
                out.append("Serialization error: ");
                out.append(m.as_str());
            },
        }
        out
    }

    /// A file-not-found error for the given path.
    pub fn file_not_found(path: &str) -> (r: SSRError)
        ensures
            r matches SSRError::FileNotFound(p) && p@ == path@,
    {
        SSRError::FileNotFound(String::from_str(path))
    }

    /// A parse error carrying the collaborator's message.
    pub fn parse_error(msg: &str) -> (r: SSRError)
        ensures
            r matches SSRError::ParseError(m) && m@ == msg@,
    {
        SSRError::ParseError(String::from_str(msg))
    }

    /// A runtime error carrying the engine's message.
    pub fn js_runtime_error(msg: &str) -> (r: SSRError)
        ensures
            r matches SSRError::JsRuntime(m) && m@ == msg@,
    {
        SSRError::JsRuntime(String::from_str(msg))
    }
}

} // verus!
