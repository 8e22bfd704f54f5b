//! The option surface: the invocation arguments as plain data, the selector
//! parsing that turns their text into decisions, and the transpile options
//! handed to the source transformer. Reading the command line itself is the
//! caller's business.

use vstd::prelude::*;

use crate::error::SSRError;
use crate::strutil::seq_starts_with;
use crate::strutil::starts_with_str;
use crate::strutil::str_eq;

verus! {

/// One invocation's arguments, as plain values.
#[derive(Debug, Clone)]
pub struct Args {
    /// Entry point file, or the route to render.
    pub entry: String,
    /// Produce server-rendered HTML.
    pub ssr: bool,
    /// Produce the hydration script.
    pub hydrate: bool,
    /// Where to write the result, if anywhere.
    pub out: Option<String>,
    /// Minify the transpiled output.
    pub minify: bool,
    /// Emit a source map.
    pub sourcemap: bool,
}

/// What the source transformer is asked to do with a module.
#[derive(Debug, Clone, Copy)]
pub struct TranspileOptions {
    pub minify: bool,
    pub sourcemap: bool,
    pub jsx: bool,
    pub typescript: bool,
}

/// The transformer options an invocation calls for: its minify and
/// source-map switches, with JSX and type-stripping always on.
pub fn transpile_options_for(args: &Args) -> (r: TranspileOptions)
    ensures
        r.minify == args.minify,
        r.sourcemap == args.sourcemap,
        r.jsx,
        r.typescript,
{
    TranspileOptions { minify: args.minify, sourcemap: args.sourcemap, jsx: true, typescript: true }
}

/// The three compile modes a caller can select.
#[derive(PartialEq, Eq, Structural, Debug, Clone, Copy)]
pub enum CompileType {
    Ssr,
    Hydration,
    Static,
}

/// Parses the compile-type selector: exactly `ssr`, `hydration` or `static`
/// succeed, and anything else is rejected naming the offending text.
pub fn parse_compile_type(s: &str) -> (r: Result<CompileType, SSRError>)
    ensures
        ({
            if s@ == "ssr"@ {
                r matches Ok(t) && t == CompileType::Ssr
            } else if s@ == "hydration"@ {
                r matches Ok(t) && t == CompileType::Hydration
            } else if s@ == "static"@ {
                r matches Ok(t) && t == CompileType::Static
            } else {
                &&& r matches Err(e)
                &&& e matches SSRError::InvalidCompileType(t)
                &&& t@ == s@
            }
        }),
{
    if str_eq(s, "ssr") {
        Ok(CompileType::Ssr)
    } else if str_eq(s, "hydration") {
        Ok(CompileType::Hydration)
    } else if str_eq(s, "static") {
        Ok(CompileType::Static)
    } else {
        Err(SSRError::InvalidCompileType(String::from_str(s)))
    }
}

/// Checks the shape of a route string: it must begin with `/`; the offending
/// text is named otherwise.
pub fn check_route(route: &str) -> (r: Result<(), SSRError>)
    ensures
        seq_starts_with(route@, "/"@) ==> r is Ok,
        !seq_starts_with(route@, "/"@) ==> {
            &&& r matches Err(e)
            &&& e matches SSRError::InvalidRoute(t)
            &&& t@ == route@
        },
{
    if starts_with_str(route, "/") {
        Ok(())
    } else {
        Err(SSRError::InvalidRoute(String::from_str(route)))
    }
}

} // verus!
