//! Conformance checks every editor adapter must pass.

use vstd::prelude::*;
use crate::editor::{Editor, empty_name_message};

verus! {

/// Checks an editor's name: it must not be empty.
pub fn check_name(name: &str) -> (r: Result<(), String>)
    ensures
        r is Ok <==> name@.len() > 0,
        r matches Err(m) ==> m@ == empty_name_message(),
{
    if name.is_empty() {
        Err("editor_name must not be empty".to_owned())
    } else {
        Ok(())
    }
}

/// Runs the conformance checks on an editor adapter: the verdict is that
/// on the name the editor gave.
pub fn run<E: Editor>(editor: &E) -> (r: Result<(), String>)
    ensures
        exists|name: &str| #[trigger] call_ensures(<E as Editor>::editor_name, (editor,), name) && (r is Ok
            <==> name@.len() > 0),
        r matches Err(m) ==> m@ == empty_name_message(),
{
    let name = editor.editor_name();
    let r = check_name(name);
    assert(call_ensures(<E as Editor>::editor_name, (editor,), name));
    r
}

} // verus!
