use vstd::prelude::*;

verus! {

/// The binary name used when no override is configured; the operating
/// system's executable search path is expected to locate it.
pub open spec fn default_binary() -> Seq<char> {
    "mermkit"@
}

/// What [`resolve`] returns: the override when it is set and non-empty,
/// the fixed default name otherwise.
pub open spec fn spec_resolve(override_value: Option<Seq<char>>) -> Seq<char> {
    match override_value {
        Some(s) => if s.len() > 0 {
            s
        } else {
            default_binary()
        },
        None => default_binary(),
    }
}

/// Resolves the renderer binary's path or name from an explicit
/// configuration value. The caller reads the process environment (or any
/// other configuration source) once and passes the override in, which keeps
/// this decision a pure function.
pub fn resolve(override_value: Option<String>) -> (r: String)
    ensures
        r@ == spec_resolve(override_value.deep_view()),
{
    match override_value {
        Some(s) => {
            if s.as_str().is_empty() {
                "mermkit".to_owned()
            } else {
                s
            }
        },
        None => "mermkit".to_owned(),
    }
}

} // verus!
