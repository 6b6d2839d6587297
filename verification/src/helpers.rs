//! The high-level helper that owns a configured bindgen `Builder` and its rename rules.

use vstd::prelude::*;
use bindgen::{BindgenError, Builder};
use crate::define_enum::DefineEnum;
use crate::ident::IdentRenamer;
use crate::pattern::{Regex, regex_valid};
use crate::renamer::{Renamer, RenamerModel};

verus! {

#[verifier::external_type_specification]
#[verifier::external_body]
pub struct ExBuilder(Builder);

#[verifier::external_type_specification]
#[verifier::external_body]
pub struct ExBindgenError(BindgenError);

#[verifier::external_type_specification]
#[verifier::external_body]
pub struct ExIoError(std::io::Error);

#[verifier::external_type_specification]
#[verifier::external_body]
pub struct ExFromUtf8Error(std::string::FromUtf8Error);

/// High-level bindgen helper that owns a configured bindgen [`Builder`] and the rules that
/// rename its items and collect define-backed enums.
#[derive(Debug)]
pub struct BindingsBuilder {
    builder: Builder,
    renamer: Renamer,
}

/// Error returned when bindings are generated and written.
#[derive(Debug)]
#[non_exhaustive]
pub enum BindingsBuilderError {
    /// Bindgen failed to generate bindings.
    Bindgen(BindgenError),
    /// Writing generated output failed.
    Io(std::io::Error),
    /// Generated output was not valid UTF-8.
    Utf8(std::string::FromUtf8Error),
}

impl View for BindingsBuilder {
    type V = RenamerModel;

    closed spec fn view(&self) -> RenamerModel {
        self.renamer@
    }
}

impl BindingsBuilder {
    /// The bindgen builder that generation starts from.
    pub closed spec fn bindgen(&self) -> Builder {
        self.builder
    }

    /// Creates helpers with optional debug warnings from the generation callbacks.
    pub fn new(builder: Builder, debug: bool) -> (h: BindingsBuilder)
        ensures
            h.bindgen() == builder,
            h@ == (RenamerModel {
                debug,
                items: Seq::empty(),
                many: Seq::empty(),
                enums: Seq::empty(),
                defines: Seq::empty(),
            }),
    {
        BindingsBuilder { builder, renamer: Renamer::new(debug) }
    }

    /// Renames a single C item, e.g., a struct, enum, or a typedef.
    pub fn rename_item(&mut self, c_name: &str, rust_name: &str)
        ensures
            final(self).bindgen() == old(self).bindgen(),
            final(self)@ == (RenamerModel {
                items: old(self)@.items.push((c_name@, rust_name@)),
                ..old(self)@
            }),
    {
        self.renamer.rename_item(c_name, rust_name);
    }

    /// Renames any C item, including enums and structs, whose name `c_name` matches.
    ///
    /// The regex must not contain `^` or `$`.
    pub fn rename_many(&mut self, c_name: Regex, renamer: IdentRenamer)
        requires
            !c_name@.contains('^'),
            !c_name@.contains('$'),
        ensures
            final(self).bindgen() == old(self).bindgen(),
            final(self)@ == (RenamerModel {
                many: old(self)@.many.push((c_name@, renamer@)),
                ..old(self)@
            }),
    {
        self.renamer.rename_many(c_name, renamer);
    }

    /// Renames enum values, of the enums whose names `enum_c_name` matches, or of unnamed
    /// enums when it is `None`. `enum_c_name` must be a valid regex.
    pub fn rename_enum_val(&mut self, enum_c_name: Option<&str>, val_renamer: IdentRenamer)
        requires
            enum_c_name matches Some(p) ==> regex_valid(p@),
        ensures
            final(self).bindgen() == old(self).bindgen(),
            final(self)@ == (RenamerModel {
                enums: old(self)@.enums.push(
                    (
                        match enum_c_name {
                            Some(p) => Some(p@),
                            None => None,
                        },
                        val_renamer@,
                    ),
                ),
                ..old(self)@
            }),
    {
        self.renamer.rename_enum_val(enum_c_name, val_renamer);
    }

    /// Collects matching integer `#define` constants into a Rust enum.
    pub fn define_enum(&mut self, define_enum: DefineEnum)
        ensures
            final(self).bindgen() == old(self).bindgen(),
            final(self)@ == (RenamerModel {
                defines: old(self)@.defines.push(define_enum@),
                ..old(self)@
            }),
    {
        self.renamer.define_enum(define_enum);
    }

    /// The rules, read-only.
    pub fn renamer(&self) -> (r: &Renamer)
        ensures
            r@ == self@,
    {
        &self.renamer
    }

    /// The bindgen builder and the rules, to generate bindings with.
    pub fn into_parts(self) -> (parts: (Builder, Renamer))
        ensures
            parts.0 == self.bindgen(),
            parts.1@ == self@,
    {
        (self.builder, self.renamer)
    }
}

} // verus!
