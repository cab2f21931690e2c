//! The persisted snapshot document: the tracked window handles as one
//! pretty-printed JSON array, rebuilt whole after every processed event.

use vstd::prelude::*;

use crate::manager::wm_hwnds;
use crate::manager::WindowManager;

verus! {

/// The JSON text that serialising a handle list yields; a function of the
/// list alone.
pub uninterp spec fn json_of(hwnds: Seq<isize>) -> Seq<char>;

/// Relies on serde_json::to_string_pretty: serialising a list of machine
/// integers is deterministic, and cannot fail for this type (no
/// non-string map keys, no fallible serialiser), so the fallback empty
/// string is never produced.
#[verifier::external_body]
fn hwnds_to_json(v: &Vec<isize>) -> (r: String)
    ensures
        r@ == json_of(v@),
{
    serde_json::to_string_pretty(v).unwrap_or_default()
}

impl WindowManager {
    /// The persisted snapshot document: every tracked tiled handle, in
    /// model order, as a JSON array. The embedding program overwrites the
    /// snapshot file with it after every processed event.
    pub fn known_hwnds_json(&self) -> (r: String)
        ensures
            r@ == json_of(wm_hwnds(self@)),
    {
        let hwnds = self.known_hwnds();
        hwnds_to_json(&hwnds)
    }
}

} // verus!
