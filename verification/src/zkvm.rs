//! What the host hands to the proving backend that runs the engine.
use std::sync::Arc;
use vstd::prelude::*;

verus! {

/// The host arguments of the mock proving backend. The mock backend runs no
/// guest program, so there is nothing to hand over.
pub fn rollup_host_args() -> (args: Arc<()>)
    ensures
        *args == (),
{
    Arc::new(())
}

/// Whether a setting asks to skip the guest build of `backend`: it does
/// where it is `1`, `true` or the backend's own name. No setting asks for
/// nothing.
pub open spec fn skips_guest_build_spec(setting: Option<Seq<char>>, backend: Seq<char>) -> bool {
    match setting {
        None => false,
        Some(value) => value == "1"@ || value == "true"@ || value == backend,
    }
}

/// The setting that may be absent, as a mathematical value.
pub open spec fn setting_view(setting: Option<&str>) -> Option<Seq<char>> {
    match setting {
        None => None,
        Some(value) => Some(value@),
    }
}

/// Decides from the setting of the host whether the guest program of
/// `backend` is left unbuilt, so that the host hands over no program.
pub fn skips_guest_build(setting: Option<&str>, backend: &str) -> (skip: bool)
    ensures
        skip == skips_guest_build_spec(setting_view(setting), backend@),
{
    match setting {
        None => false,
        Some(value) => {
            let given: String = value.to_owned();
            let one: String = "1".to_owned();
            let yes: String = "true".to_owned();
            let name: String = backend.to_owned();
            given == one || given == yes || given == name
        },
    }
}

} // verus!
