//! An output with the rounded modes it supports.
use vstd::prelude::*;
use crate::display_config;
use crate::mode_db::{ModeDb, RoundedMode};

verus! {

pub struct Output {
    pub id: u32,
    pub possible_modes: Vec<RoundedMode>,
}

impl Output {
    /// The output `dbus_output` with the distinct rounded modes its mode ids link to.
    pub fn new(dbus_output: &display_config::Output, mode_db: &ModeDb) -> (r: Output)
        requires
            mode_db.wf(),
        ensures
            r.id == dbus_output.id,
            forall|a: int, b: int| 0 <= a < b < r.possible_modes@.len() ==> r.possible_modes@[a] != r.possible_modes@[b],
            forall|rm: RoundedMode| r.possible_modes@.contains(rm) <==> exists|i: int|
                0 <= i < dbus_output.mode_ids@.len() && mode_db.link_spec(#[trigger] dbus_output.mode_ids@[i]) == Some(rm),
    {
        let possible_modes = mode_db.get_modes_by_ids(&dbus_output.mode_ids);
        Output { id: dbus_output.id, possible_modes }
    }
}

} // verus!
