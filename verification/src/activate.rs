//! Activation support: the scope of an activation and the resolution of
//! the locale-configuration path that the rendered record is written to.
use vstd::prelude::*;

verus! {

/// The scope of an activation: the invoking user only, or the whole host.
pub enum Target {
    Local,
    Global,
}

/// An error the activator reports.
#[derive(Debug, PartialEq, Eq, Structural)]
pub enum LocaleError {
    /// The user-scoped path could not be resolved: no home directory.
    HomeUnavailable,
}

/// The fixed system-scoped configuration path.
pub open spec fn system_config_path() -> Seq<char> {
    "/etc/locale.conf"@
}

/// The user-scoped configuration path under a home directory.
pub open spec fn user_config_path(home: Seq<char>) -> Seq<char> {
    home + "/.config/locale.conf"@
}

/// Resolves the path that a locale configuration of the given scope is
/// written to. A system-scoped activation goes to the fixed system path;
/// a user-scoped one goes under the home directory, and fails exactly
/// when no home directory is given.
pub fn config_path(target: Target, home: Option<&str>) -> (r: Result<String, LocaleError>)
    ensures
        match r {
            Ok(p) => match target {
                Target::Global => p@ == system_config_path(),
                Target::Local => home matches Some(h) && p@ == user_config_path(h@),
            },
            Err(e) => target is Local && home is None && e == LocaleError::HomeUnavailable,
        },
        r is Err <==> (target is Local && home is None),
{
    match target {
        Target::Global => Ok("/etc/locale.conf".to_owned()),
        Target::Local => match home {
            Some(h) => {
                let mut p = h.to_owned();
                p.append("/.config/locale.conf");
                Ok(p)
            },
            None => Err(LocaleError::HomeUnavailable),
        },
    }
}

} // verus!
