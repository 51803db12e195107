use neothesia::python::{
    choose_bridge_script, fallback_script, find_python, python_candidates, BridgeScript,
};

#[test]
fn the_first_python_that_exists_is_taken() {
    let candidates = python_candidates();
    assert_eq!(candidates.len(), 4);
    assert_eq!(candidates[2], r"C:\Program Files\Python312\python.exe");
    assert_eq!(find_python(&vec![true, true, true, true]), Some(candidates[0]));
    assert_eq!(find_python(&vec![false, true, false, true]), Some(candidates[1]));
    assert_eq!(find_python(&vec![false, false, true, true]), Some(candidates[2]));
    assert_eq!(find_python(&vec![false, false, false, true]), Some("python.exe"));
}

#[test]
fn the_search_path_is_the_last_resort() {
    assert_eq!(find_python(&vec![false, false, false, false]), Some("python"));
}

#[test]
fn the_local_script_comes_first() {
    assert_eq!(choose_bridge_script(true, true), Some(BridgeScript::Local));
    assert_eq!(choose_bridge_script(true, false), Some(BridgeScript::Local));
    assert_eq!(choose_bridge_script(false, true), Some(BridgeScript::Fallback));
    assert_eq!(choose_bridge_script(false, false), None);
    assert_eq!(fallback_script(), r"D:\JFF\Neothesia\bt_bridge\bridge.py");
}
