//! Patching of device descriptions: name matching and the rules that the
//! patch operations share.
use vstd::prelude::*;
use crate::text::{chars_of, string_from_chars, copy_str};

pub mod arrays;
pub mod block;
pub mod block_edit;
pub mod builders;
pub mod collect;
pub mod collect_regs;
pub mod copy_derive;
pub mod device;
pub mod dict;
pub mod duplicate;
pub mod enums;
pub mod error;
pub mod expand;
pub mod field_edit;
pub mod field_enum;
pub mod includes;
pub mod measure;
pub mod names;
pub mod peripheral;
pub mod process;
pub mod reg_builders;
pub mod register;
pub mod register_process;
pub mod yaml;
pub mod yaml_ext;

verus! {

/// Whether `s` starts with `?~`.
pub open spec fn has_optional_marker(s: Seq<char>) -> bool {
    s.len() >= 2 && s[0] == '?' && s[1] == '~'
}

/// The specification without its `?~` marker, and whether it had one.
pub open spec fn spec_parts(s: Seq<char>) -> (Seq<char>, bool) {
    if has_optional_marker(s) {
        (s.skip(2), true)
    } else {
        (s, false)
    }
}

/// A name specification that may start with `?~` ("ignore if it does not exist").
pub trait Spec {
    /// The text of the specification.
    spec fn spec_text(&self) -> Seq<char>;

    /// Return specification and `ignore_if_not_exists` flag
    fn spec(&self) -> (r: (&str, bool))
        ensures
            (r.0@, r.1) == spec_parts(self.spec_text()),
    ;
}

impl Spec for str {
    open spec fn spec_text(&self) -> Seq<char> {
        self@
    }

    fn spec(&self) -> (r: (&str, bool)) {
        let n = self.unicode_len();
        if n >= 2 && self.get_char(0) == '?' && self.get_char(1) == '~' {
            (self.substring_char(2, n), true)
        } else {
            (self, false)
        }
    }
}


/// Derive level when several identical enumerationValues added in a field
#[derive(Clone, Copy, Debug, PartialEq, Eq, Structural)]
pub enum EnumAutoDerive {
    /// Derive enumeratedValues
    Enum,
    /// Derive fields
    Field,
    /// Make a copy
    Duplicate,
}

impl Default for EnumAutoDerive {
    fn default() -> (r: Self)
        ensures
            r == EnumAutoDerive::Enum,
    {
        EnumAutoDerive::Enum
    }
}

/// How a patch is applied.
#[derive(Clone, Copy, Debug)]
pub struct Config {
    pub show_patch_on_error: bool,
    pub enum_derive: EnumAutoDerive,
    pub update_fields: bool,
}

impl Default for Config {
    fn default() -> (r: Self)
        ensures
            r.show_patch_on_error == false,
            r.enum_derive == EnumAutoDerive::Enum,
            r.update_fields == true,
    {
        Config { show_patch_on_error: false, enum_derive: EnumAutoDerive::Enum, update_fields: true }
    }
}

} // verus!
