//! The profile fields that fragments, `profiles.defaults` and the user's own entry
//! stack on top of one another; a later layer overrides an earlier one.
use vstd::prelude::*;
use crate::json::{Json, spec_get, spec_get_str, spec_as_bool};
use crate::text::{trim, trimmed_chars, string_of};

verus! {

/// One layer of profile fields. `None` leaves the field to the layers below.
pub struct Overlay {
    pub source: Option<String>,
    pub name: Option<String>,
    pub commandline: Option<String>,
    pub starting_directory: Option<String>,
    pub hidden: Option<bool>,
}

/// An overlay as plain values.
pub ghost struct OverlayView {
    pub source: Option<Seq<char>>,
    pub name: Option<Seq<char>>,
    pub commandline: Option<Seq<char>>,
    pub starting_directory: Option<Seq<char>>,
    pub hidden: Option<bool>,
}

pub open spec fn oview(o: Overlay) -> OverlayView {
    OverlayView {
        source: crate::launcher::opt_view(o.source),
        name: crate::launcher::opt_view(o.name),
        commandline: crate::launcher::opt_view(o.commandline),
        starting_directory: crate::launcher::opt_view(o.starting_directory),
        hidden: o.hidden,
    }
}

/// The overlay that sets nothing.
pub open spec fn empty_view() -> OverlayView {
    OverlayView {
        source: None,
        name: None,
        commandline: None,
        starting_directory: None,
        hidden: None,
    }
}

/// `other` laid over `base`. Every field `other` sets wins, except the source: that
/// is the profile's identity, taken only while `base` has none, so an `updates`
/// entry cannot move a profile into the updating fragment's directory.
pub open spec fn spec_apply(base: OverlayView, other: OverlayView) -> OverlayView {
    OverlayView {
        source: if base.source is None { other.source } else { base.source },
        name: if other.name is Some { other.name } else { base.name },
        commandline: if other.commandline is Some { other.commandline } else { base.commandline },
        starting_directory: if other.starting_directory is Some {
            other.starting_directory
        } else {
            base.starting_directory
        },
        hidden: if other.hidden is Some { other.hidden } else { base.hidden },
    }
}

/// A string member, trimmed, when it is there and not blank.
pub open spec fn spec_str_field(v: Json, key: Seq<char>) -> Option<Seq<char>> {
    match spec_get_str(v, key) {
        Some(s) => if trim(s).len() == 0 {
            None
        } else {
            Some(trim(s))
        },
        None => None,
    }
}

/// The fields a profile object sets, with `source` given by the caller.
pub open spec fn spec_overlay_of(v: Json, source: Option<Seq<char>>) -> OverlayView {
    OverlayView {
        source,
        name: spec_str_field(v, "name"@),
        commandline: spec_str_field(v, "commandline"@),
        starting_directory: spec_str_field(v, "startingDirectory"@),
        hidden: match spec_get(v, "hidden"@) {
            Some(h) => spec_as_bool(h),
            None => None,
        },
    }
}

/// The string member `key` of `v`, trimmed, unless it is missing, not a string, or
/// blank.
pub fn str_field(v: &Json, key: &str) -> (r: Option<String>)
    ensures
        crate::launcher::opt_view(r) == spec_str_field(*v, key@),
{
    match v.get(key) {
        Some(x) => match x.as_str() {
            Some(s) => {
                let t = trimmed_chars(s);
                if t.len() == 0 {
                    None
                } else {
                    Some(string_of(t.as_slice()))
                }
            },
            None => None,
        },
        None => None,
    }
}

pub fn clone_opt(o: &Option<String>) -> (r: Option<String>)
    ensures
        crate::launcher::opt_view(r) == crate::launcher::opt_view(*o),
{
    match o {
        Some(s) => Some(s.clone()),
        None => None,
    }
}

impl Overlay {
    pub fn empty() -> (r: Overlay)
        ensures
            oview(r) == empty_view(),
    {
        Overlay {
            source: None,
            name: None,
            commandline: None,
            starting_directory: None,
            hidden: None,
        }
    }

    /// The fields of the profile object `v`.
    pub fn from_json(v: &Json, source: Option<String>) -> (r: Overlay)
        ensures
            oview(r) == spec_overlay_of(*v, crate::launcher::opt_view(source)),
    {
        let hidden = match v.get("hidden") {
            Some(h) => h.as_bool(),
            None => None,
        };
        Overlay {
            source,
            name: str_field(v, "name"),
            commandline: str_field(v, "commandline"),
            starting_directory: str_field(v, "startingDirectory"),
            hidden,
        }
    }

    pub fn copy(&self) -> (r: Overlay)
        ensures
            oview(r) == oview(*self),
    {
        Overlay {
            source: clone_opt(&self.source),
            name: clone_opt(&self.name),
            commandline: clone_opt(&self.commandline),
            starting_directory: clone_opt(&self.starting_directory),
            hidden: self.hidden,
        }
    }

    /// Lays `other` over `self`.
    pub fn apply(&mut self, other: &Overlay)
        ensures
            oview(*final(self)) == spec_apply(oview(*old(self)), oview(*other)),
    {
        if other.source.is_some() && self.source.is_none() {
            self.source = clone_opt(&other.source);
        }
        if other.name.is_some() {
            self.name = clone_opt(&other.name);
        }
        if other.commandline.is_some() {
            self.commandline = clone_opt(&other.commandline);
        }
        if other.starting_directory.is_some() {
            self.starting_directory = clone_opt(&other.starting_directory);
        }
        if other.hidden.is_some() {
            self.hidden = other.hidden;
        }
    }
}

} // verus!
