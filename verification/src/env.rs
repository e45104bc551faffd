use vstd::prelude::*;

verus! {

/// Names the host the engine is embedded in: the browser. The application
/// uses the type as a tag for its environment; the engine itself never
/// inspects it.
pub enum WebEnv {
    Browser,
}

} // verus!
