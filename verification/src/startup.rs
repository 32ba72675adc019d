//! Whether the server starts.
use crate::text::same_text;
use vstd::prelude::*;

verus! {

/// What a start comes to.
#[derive(Debug, Clone, Copy, PartialEq, Eq, Structural)]
pub enum Start {
    /// No mode was selected.
    NoMode,
    /// The mode needs a cookie file, and there is none.
    NoCookie,
    /// There is no directory of static files.
    NoStatic,
    /// The server runs.
    Run,
}

/// What a start comes to, with the text that was selected and what is there on disk.
pub open spec fn start_of(mode: Seq<char>, cookie: bool, static_dir: bool) -> Start {
    if mode == "No mode selected"@ {
        Start::NoMode
    } else if mode == "Asset Grab Mode"@ && !cookie {
        Start::NoCookie
    } else if !static_dir {
        Start::NoStatic
    } else {
        Start::Run
    }
}

/// The modes that are offered, in their order.
pub open spec fn mode_names() -> Seq<Seq<char>> {
    seq!["Asset Grab Mode"@, "Regular Mode"@, "Reflection Mode"@]
}

/// The modes that are offered, in their order.
pub fn modes() -> (out: Vec<&'static str>)
    ensures
        out@.map_values(|s: &'static str| s@) == mode_names(),
{
    let mut out: Vec<&'static str> = Vec::new();
    out.push("Asset Grab Mode");
    out.push("Regular Mode");
    out.push("Reflection Mode");
    assert(out@.map_values(|s: &'static str| s@) =~= mode_names());
    out
}

/// What a start comes to, with the text that was selected and what is there on disk.
pub fn start(mode: &str, cookie: bool, static_dir: bool) -> (r: Start)
    ensures
        r == start_of(mode@, cookie, static_dir),
{
    if same_text(mode, "No mode selected") {
        Start::NoMode
    } else if same_text(mode, "Asset Grab Mode") && !cookie {
        Start::NoCookie
    } else if !static_dir {
        Start::NoStatic
    } else {
        Start::Run
    }
}

/// The server runs only with static files, and in the mode that fetches assets only with a
/// cookie.
pub proof fn law_runs_only_with_its_files(mode: Seq<char>, cookie: bool, static_dir: bool)
    requires
        start_of(mode, cookie, static_dir) == Start::Run,
    ensures
        static_dir,
        mode == "Asset Grab Mode"@ ==> cookie,
{
}

} // verus!
