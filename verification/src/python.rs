//! Finding the helper process of the bridge.

use vstd::prelude::*;

verus! {

/// Where a Python interpreter is looked for, in this order.
pub open spec fn python_candidate(i: int) -> Seq<char> {
    if i == 0 {
        "C:\\Users\\King\\AppData\\Local\\Programs\\Python\\Python312\\python.exe"@
    } else if i == 1 {
        "C:\\Users\\King\\AppData\\Local\\Programs\\Python\\Python314\\python.exe"@
    } else if i == 2 {
        "C:\\Program Files\\Python312\\python.exe"@
    } else {
        "python.exe"@
    }
}

/// The number of places where a Python interpreter is looked for.
pub const PYTHON_CANDIDATES: usize = 4;

/// The places where a Python interpreter is looked for, in order.
pub fn python_candidates() -> (candidates: Vec<&'static str>)
    ensures
        candidates.len() == PYTHON_CANDIDATES,
        forall|i: int|
            0 <= i < PYTHON_CANDIDATES ==> (#[trigger] candidates@[i])@ == python_candidate(i),
{
    let mut candidates: Vec<&'static str> = Vec::new();
    candidates.push("C:\\Users\\King\\AppData\\Local\\Programs\\Python\\Python312\\python.exe");
    candidates.push("C:\\Users\\King\\AppData\\Local\\Programs\\Python\\Python314\\python.exe");
    candidates.push("C:\\Program Files\\Python312\\python.exe");
    candidates.push("python.exe");
    candidates
}

/// Picks the first candidate that exists; `exists` tells of each whether it does. Where none
/// does, the search path has to do with plain `python`.
pub fn find_python(exists: &Vec<bool>) -> (python: Option<&'static str>)
    requires
        exists.len() == PYTHON_CANDIDATES,
    ensures
        python is Some,
        forall|i: int|
            0 <= i < PYTHON_CANDIDATES && exists@[i] && (forall|k: int| 0 <= k < i ==> !exists@[k])
                ==> python->0@ == #[trigger] python_candidate(i),
        (forall|i: int| 0 <= i < PYTHON_CANDIDATES ==> !exists@[i]) ==> python->0@ == "python"@,
{
    let candidates = python_candidates();
    let mut i: usize = 0;
    while i < candidates.len()
        invariant
            exists.len() == PYTHON_CANDIDATES,
            candidates.len() == PYTHON_CANDIDATES,
            i <= PYTHON_CANDIDATES,
            forall|k: int|
                0 <= k < PYTHON_CANDIDATES ==> (#[trigger] candidates@[k])@ == python_candidate(k),
            forall|k: int| 0 <= k < i ==> !exists@[k],
        decreases PYTHON_CANDIDATES - i,
    {
        if exists[i] {
            return Some(candidates[i]);
        }
        i = i + 1;
    }
    Some("python")
}

/// Where the script of the helper process lies.
#[derive(Clone, Copy, Debug, PartialEq, Eq, Structural)]
pub enum BridgeScript {
    /// `bt_bridge/bridge.py` under the working directory.
    Local,
    /// The place named by [`fallback_script`].
    Fallback,
}

/// Where the script lies if it is not found under the working directory.
pub fn fallback_script() -> (path: &'static str)
    ensures
        path@ == "D:\\JFF\\Neothesia\\bt_bridge\\bridge.py"@,
{
    "D:\\JFF\\Neothesia\\bt_bridge\\bridge.py"
}

/// Picks the script to run: the local one before the other, and none where neither exists.
pub fn choose_bridge_script(local_exists: bool, fallback_exists: bool) -> (script: Option<
    BridgeScript,
>)
    ensures
        script == if local_exists {
            Some(BridgeScript::Local)
        } else if fallback_exists {
            Some(BridgeScript::Fallback)
        } else {
            None::<BridgeScript>
        },
{
    if local_exists {
        Some(BridgeScript::Local)
    } else if fallback_exists {
        Some(BridgeScript::Fallback)
    } else {
        None
    }
}

/// The places where an interpreter is looked for, in order of preference.
pub proof fn law_places_of_python()
    ensures
        PYTHON_CANDIDATES == 4,
        python_candidate(0)
            == "C:\\Users\\King\\AppData\\Local\\Programs\\Python\\Python312\\python.exe"@,
        python_candidate(1)
            == "C:\\Users\\King\\AppData\\Local\\Programs\\Python\\Python314\\python.exe"@,
        python_candidate(2) == "C:\\Program Files\\Python312\\python.exe"@,
        python_candidate(3) == "python.exe"@,
{
}

} // verus!
