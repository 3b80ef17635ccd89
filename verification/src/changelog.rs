//! Changelog text. The caller reads the local changelog file if one exists
//! and hands its content in; when there is none, or reading it failed, the
//! built-in fallback document is served instead, with today's date
//! substituted into its newest entry. A missing file is recovered locally,
//! never surfaced as a failure.

use crate::clock::today_string;
use vstd::prelude::*;
use vstd::string::StringExecFns;

verus! {

/// The fallback document up to the point where today's date is inserted.
pub open spec fn fallback_head() -> Seq<char> {
    "\n## v1.0.2 ("@
}

/// The fallback document after the inserted date.
pub open spec fn fallback_tail() -> Seq<char> {
    ")\n\n- Improved the automatic update mechanism\n- Refined the version comparison algorithm\n- Fixed issues around the version check\n\n## v1.0.1 (2023-11-15)\n\n- Added automatic updates\n- Added the changelog viewer\n- Improved context menu placement\n- Fixed the theme menu shown in the settings sidebar\n\n## v1.0.0 (2023-10-01)\n\n- First release\n- Browse and preview system fonts\n- Favorite fonts\n- Search fonts\n"@
}

/// The built-in fallback changelog, with `date` as the newest entry's date:
/// the date appears verbatim between the document's head and tail.
pub fn changelog_fallback(date: &str) -> (r: String)
    ensures
        r@ == fallback_head() + date@ + fallback_tail(),
{
    let mut r = String::from_str("\n## v1.0.2 (");
    r.append(date);
    r.append(
        ")\n\n- Improved the automatic update mechanism\n- Refined the version comparison algorithm\n- Fixed issues around the version check\n\n## v1.0.1 (2023-11-15)\n\n- Added automatic updates\n- Added the changelog viewer\n- Improved context menu placement\n- Fixed the theme menu shown in the settings sidebar\n\n## v1.0.0 (2023-10-01)\n\n- First release\n- Browse and preview system fonts\n- Favorite fonts\n- Search fonts\n",
    );
    r
}

/// The changelog text served to the UI: the local changelog file's content
/// when the caller found one, else the built-in fallback carrying today's
/// date. Never fails.
pub fn get_changelog_text(local: Option<String>) -> (r: Result<String, String>)
    ensures
        r is Ok,
        local matches Some(c) ==> r matches Ok(s) && s == c,
        local is None ==> (r matches Ok(s) && exists|d: Seq<char>|
            d.len() >= 10 && s@ == fallback_head() + d + fallback_tail()),
{
    match local {
        Option::Some(c) => Ok(c),
        Option::None => {
            let d = today_string();
            let s = changelog_fallback(d.as_str());
            proof {
                let w = d@;
                assert(w.len() >= 10 && s@ == fallback_head() + w + fallback_tail());
            }
            Ok(s)
        },
    }
}

} // verus!
