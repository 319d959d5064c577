//! The serving decision of the asset server: route a request path and guard
//! the catch-all file route.  Every guard failure on the serving path
//! collapses to `NotFound`, so no path or filesystem detail leaks to clients.

use vstd::prelude::*;
use vstd::string::StrSliceExecFns;
use crate::errors::ErrorKind;
use crate::path_model::{joined, rel_allowed};
use crate::path_guard::{is_contained, join_path, str_eq};

verus! {

/// What the server does with a request: answer the liveness probe, stream the
/// named file, or reply not-found.
#[derive(Debug)]
pub enum RouteOutcome {
    Alive,
    ServeFile(String),
    Rejected,
}

/// The request path of the liveness route, without its leading `/`.
pub open spec fn check_alive_path() -> Seq<char> {
    "checkAlive"@
}

/// The model of the file-serving decision: the joined path when the relative
/// path is acceptable, `NotFound` otherwise.
pub open spec fn serve_model(root: Seq<char>, rel: Seq<char>) -> Result<Seq<char>, ErrorKind> {
    if rel_allowed(root, rel) {
        Ok(joined(root, rel))
    } else {
        Err(ErrorKind::NotFound)
    }
}

/// Decide the catch-all file route: the absolute path to open, or `NotFound`
/// for anything that poses as absolute or escapes the root.
pub fn serve_decision(root: &str, rel: &str) -> (r: Result<String, ErrorKind>)
    ensures
        r matches Ok(p) ==> serve_model(root@, rel@) == Ok::<Seq<char>, ErrorKind>(p@),
        r matches Err(e) ==> serve_model(root@, rel@) == Err::<Seq<char>, ErrorKind>(e),
{
    if rel.unicode_len() > 0 {
        let c0 = rel.get_char(0);
        if c0 == '/' || c0 == '\\' {
            return Err(ErrorKind::NotFound);
        }
    }
    let candidate = join_path(root, rel);
    if is_contained(root, candidate.as_str()) {
        Ok(candidate)
    } else {
        Err(ErrorKind::NotFound)
    }
}

/// Route one request: the liveness path answers `Alive`; everything else is
/// the catch-all file route.
pub fn route_request(root: &str, path: &str) -> (r: RouteOutcome)
    ensures
        path@ == check_alive_path() ==> r is Alive,
        path@ != check_alive_path() && rel_allowed(root@, path@) ==> (r matches RouteOutcome::ServeFile(p) && p@ == joined(root@, path@)),
        path@ != check_alive_path() && !rel_allowed(root@, path@) ==> r is Rejected,
{
    if str_eq(path, "checkAlive") {
        return RouteOutcome::Alive;
    }
    match serve_decision(root, path) {
        Ok(p) => RouteOutcome::ServeFile(p),
        Err(_) => RouteOutcome::Rejected,
    }
}

} // verus!
