//! Java classes and their members, as reflection describes them.

use vstd::prelude::*;

verus! {

#[derive(Debug)]
pub struct JNIClass {
    pub name: String,
    pub modifiers: Modifier,
    pub path: String,
    pub fields: Vec<JNIField>,
    pub methods: Vec<JNIMethod>,
    pub constructors: Vec<JNIConstructor>,
}

/// The modifier flags of a class or of a member, as the Java virtual
/// machine encodes them: one bit for each modifier.
#[derive(Clone, Copy, Debug, PartialEq, Eq, Structural)]
pub struct Modifier {
    pub modifiers: i32,
}

#[derive(Debug)]
pub struct JNIMethod {
    pub owner: JNIClass,
    pub name: String,
    pub modifiers: Modifier,
    pub return_types: Vec<JNIClass>,
    pub parameter_types: Vec<JNIClass>,
    pub exception_types: Vec<JNIClass>,
}

#[derive(Debug)]
pub struct JNIField {
    pub owner: JNIClass,
    pub name: String,
    pub modifiers: Modifier,
}

#[derive(Debug)]
pub struct JNIConstructor {
    pub owner: JNIClass,
    pub name: String,
    pub modifiers: Modifier,
    pub parameter_types: Vec<JNIClass>,
    pub exception_types: Vec<JNIClass>,
}

/// The modifiers of a member that is static and nothing else.
pub fn staticmodifier() -> (m: Modifier)
    ensures
        m.modifiers == 8,
{
    Modifier { modifiers: 8 }
}

impl Modifier {
    /// Whether one of the bits of `id` is set.
    pub open spec fn has(self, id: i32) -> bool {
        (self.modifiers & id) != 0
    }

    /// Whether one of the bits of `id` is set.
    pub fn mod_eq(&self, id: i32) -> (r: bool)
        ensures
            r == self.has(id),
    {
        (self.modifiers & id) != 0
    }

    pub fn is_public(&self) -> (r: bool)
        ensures
            r == self.has(1),
    {
        self.mod_eq(1)
    }

    pub fn is_private(&self) -> (r: bool)
        ensures
            r == self.has(2),
    {
        self.mod_eq(2)
    }

    pub fn is_protected(&self) -> (r: bool)
        ensures
            r == self.has(4),
    {
        self.mod_eq(4)
    }

    pub fn is_static(&self) -> (r: bool)
        ensures
            r == self.has(8),
    {
        self.mod_eq(8)
    }

    pub fn is_final(&self) -> (r: bool)
        ensures
            r == self.has(16),
    {
        self.mod_eq(16)
    }

    pub fn is_synchronized(&self) -> (r: bool)
        ensures
            r == self.has(32),
    {
        self.mod_eq(32)
    }

    pub fn is_volatile(&self) -> (r: bool)
        ensures
            r == self.has(64),
    {
        self.mod_eq(64)
    }

    pub fn is_transient(&self) -> (r: bool)
        ensures
            r == self.has(128),
    {
        self.mod_eq(128)
    }

    pub fn is_native(&self) -> (r: bool)
        ensures
            r == self.has(256),
    {
        self.mod_eq(256)
    }

    pub fn is_interface(&self) -> (r: bool)
        ensures
            r == self.has(512),
    {
        self.mod_eq(512)
    }

    pub fn is_abstract(&self) -> (r: bool)
        ensures
            r == self.has(1024),
    {
        self.mod_eq(1024)
    }

    pub fn is_strict(&self) -> (r: bool)
        ensures
            r == self.has(2048),
    {
        self.mod_eq(2048)
    }

    pub fn is_synthetic(&self) -> (r: bool)
        ensures
            r == self.has(4096),
    {
        self.mod_eq(4096)
    }

    pub fn is_annotation(&self) -> (r: bool)
        ensures
            r == self.has(8192),
    {
        self.mod_eq(8192)
    }

    pub fn is_enum(&self) -> (r: bool)
        ensures
            r == self.has(16384),
    {
        self.mod_eq(16384)
    }

    pub fn is_mandated(&self) -> (r: bool)
        ensures
            r == self.has(32768),
    {
        self.mod_eq(32768)
    }
}

} // verus!
