//! Core data types: principals, key names, byte buffers and access rights.

use vstd::prelude::*;

verus! {

/// A principal identifier: an opaque byte string of at most 29 bytes.
#[derive(Debug, PartialEq, Eq, PartialOrd, Ord, Hash)]
pub struct Principal {
    pub(crate) bytes: Vec<u8>,
}

impl View for Principal {
    type V = Seq<u8>;

    closed spec fn view(&self) -> Seq<u8> {
        self.bytes@
    }
}

impl Principal {
    /// Well-formed principals fit in the fixed-size storage slot.
    pub open spec fn wf(&self) -> bool {
        self@.len() <= 29
    }

    pub fn from_bytes(bytes: Vec<u8>) -> (p: Principal)
        ensures
            p@ == bytes@,
    {
        Principal { bytes }
    }

    pub fn bytes(&self) -> (r: &Vec<u8>)
        ensures
            r@ == self@,
    {
        &self.bytes
    }
}

impl Clone for Principal {
    fn clone(&self) -> (r: Self)
        ensures
            r@ == self@,
    {
        Principal { bytes: clone_bytes(&self.bytes) }
    }
}

/// A key name (also used as map name and map key): an opaque byte string of
/// at most 32 bytes.
#[derive(Debug, PartialEq, Eq, PartialOrd, Ord, Hash)]
pub struct KeyName {
    pub(crate) bytes: Vec<u8>,
}

impl View for KeyName {
    type V = Seq<u8>;

    closed spec fn view(&self) -> Seq<u8> {
        self.bytes@
    }
}

impl KeyName {
    /// Well-formed key names fit in the fixed-size storage slot.
    pub open spec fn wf(&self) -> bool {
        self@.len() <= 32
    }

    pub fn from_bytes(bytes: Vec<u8>) -> (n: KeyName)
        ensures
            n@ == bytes@,
    {
        KeyName { bytes }
    }

    pub fn bytes(&self) -> (r: &Vec<u8>)
        ensures
            r@ == self@,
    {
        &self.bytes
    }
}

impl Clone for KeyName {
    fn clone(&self) -> (r: Self)
        ensures
            r@ == self@,
    {
        KeyName { bytes: clone_bytes(&self.bytes) }
    }
}

pub type MapName = KeyName;

pub type MapKey = KeyName;

/// A key namespace identifier: the owning principal together with a name
/// chosen by the owner.
pub type KeyId = (Principal, KeyName);

pub type MapId = KeyId;

/// An owned byte buffer, used for transport keys, derived key material and
/// encrypted values.
#[derive(Debug, PartialEq, Eq, PartialOrd, Ord)]
pub struct ByteBuf {
    pub(crate) inner: Vec<u8>,
}

impl View for ByteBuf {
    type V = Seq<u8>;

    closed spec fn view(&self) -> Seq<u8> {
        self.inner@
    }
}

impl ByteBuf {
    pub fn new() -> (b: ByteBuf)
        ensures
            b@ == Seq::<u8>::empty(),
    {
        ByteBuf { inner: Vec::new() }
    }

    pub fn bytes(&self) -> (r: &Vec<u8>)
        ensures
            r@ == self@,
    {
        &self.inner
    }

    pub fn into_vec(self) -> (v: Vec<u8>)
        ensures
            v@ == self@,
    {
        self.inner
    }
}

impl Clone for ByteBuf {
    fn clone(&self) -> (r: Self)
        ensures
            r@ == self@,
    {
        ByteBuf { inner: clone_bytes(&self.inner) }
    }
}

impl Default for ByteBuf {
    fn default() -> (b: Self)
        ensures
            b@ == Seq::<u8>::empty(),
    {
        ByteBuf { inner: Vec::new() }
    }
}

impl From<Vec<u8>> for ByteBuf {
    fn from(inner: Vec<u8>) -> (b: Self)
        ensures
            b@ == inner@,
    {
        ByteBuf { inner }
    }
}

impl vstd::std_specs::convert::FromSpecImpl<Vec<u8>> for ByteBuf {
    open spec fn obeys_from_spec() -> bool {
        true
    }

    closed spec fn from_spec(inner: Vec<u8>) -> Self {
        ByteBuf { inner }
    }
}

impl From<ByteBuf> for Vec<u8> {
    fn from(buf: ByteBuf) -> (v: Self)
        ensures
            v@ == buf@,
    {
        buf.inner
    }
}

impl vstd::std_specs::convert::FromSpecImpl<ByteBuf> for Vec<u8> {
    open spec fn obeys_from_spec() -> bool {
        true
    }

    closed spec fn from_spec(buf: ByteBuf) -> Self {
        buf.inner
    }
}

pub type TransportKey = ByteBuf;

pub type EncryptedMapValue = ByteBuf;

pub type VetKeyVerificationKey = ByteBuf;

pub type VetKey = ByteBuf;

/// Access levels for a shared key, ordered from weakest to strongest; each
/// level includes every capability of the levels below it.
#[derive(Clone, Copy, Debug, PartialEq, Eq, Structural)]
pub enum AccessRights {
    Read,
    ReadWrite,
    ReadWriteManage,
}

impl AccessRights {
    /// The byte under which this level is stored in the durable table.
    pub open spec fn spec_repr(self) -> u8 {
        match self {
            AccessRights::Read => 0,
            AccessRights::ReadWrite => 1,
            AccessRights::ReadWriteManage => 2,
        }
    }

    pub open spec fn spec_from_repr(v: u8) -> Option<AccessRights> {
        if v == 0 {
            Some(AccessRights::Read)
        } else if v == 1 {
            Some(AccessRights::ReadWrite)
        } else if v == 2 {
            Some(AccessRights::ReadWriteManage)
        } else {
            None
        }
    }

    pub fn as_repr(self) -> (v: u8)
        ensures
            v == self.spec_repr(),
    {
        match self {
            AccessRights::Read => 0,
            AccessRights::ReadWrite => 1,
            AccessRights::ReadWriteManage => 2,
        }
    }

    pub fn from_repr(v: u8) -> (r: Option<AccessRights>)
        ensures
            r == AccessRights::spec_from_repr(v),
    {
        if v == 0 {
            Some(AccessRights::Read)
        } else if v == 1 {
            Some(AccessRights::ReadWrite)
        } else if v == 2 {
            Some(AccessRights::ReadWriteManage)
        } else {
            None
        }
    }
}

/// The capability predicates every access-rights type offers: which levels
/// may read, write, inspect or change the sharing of a key, and the level
/// the owner implicitly holds.
pub trait AccessControl: Sized {
    spec fn spec_can_read(self) -> bool;

    spec fn spec_can_write(self) -> bool;

    spec fn spec_can_get_user_rights(self) -> bool;

    spec fn spec_can_set_user_rights(self) -> bool;

    spec fn spec_owner_rights() -> Self;

    fn can_read(&self) -> (b: bool)
        ensures
            b == self.spec_can_read(),
    ;

    fn can_write(&self) -> (b: bool)
        ensures
            b == self.spec_can_write(),
    ;

    fn can_get_user_rights(&self) -> (b: bool)
        ensures
            b == self.spec_can_get_user_rights(),
    ;

    fn can_set_user_rights(&self) -> (b: bool)
        ensures
            b == self.spec_can_set_user_rights(),
    ;

    fn owner_rights() -> (r: Self)
        ensures
            r == Self::spec_owner_rights(),
    ;
}

impl AccessControl for AccessRights {
    open spec fn spec_can_read(self) -> bool {
        true
    }

    open spec fn spec_can_write(self) -> bool {
        self == AccessRights::ReadWrite || self == AccessRights::ReadWriteManage
    }

    open spec fn spec_can_get_user_rights(self) -> bool {
        self == AccessRights::ReadWriteManage
    }

    open spec fn spec_can_set_user_rights(self) -> bool {
        self == AccessRights::ReadWriteManage
    }

    open spec fn spec_owner_rights() -> Self {
        AccessRights::ReadWriteManage
    }

    fn can_read(&self) -> (b: bool) {
        true
    }

    fn can_write(&self) -> (b: bool) {
        matches!(self, AccessRights::ReadWrite | AccessRights::ReadWriteManage)
    }

    fn can_get_user_rights(&self) -> (b: bool) {
        matches!(self, AccessRights::ReadWriteManage)
    }

    fn can_set_user_rights(&self) -> (b: bool) {
        matches!(self, AccessRights::ReadWriteManage)
    }

    fn owner_rights() -> (r: Self) {
        AccessRights::ReadWriteManage
    }
}

/// Byte-for-byte equality of two slices.
pub(crate) fn bytes_eq(a: &[u8], b: &[u8]) -> (r: bool)
    ensures
        r == (a@ == b@),
{
    if a.len() != b.len() {
        return false;
    }
    let mut i: usize = 0;
    while i < a.len()
        invariant
            i <= a@.len(),
            a@.len() == b@.len(),
            forall|j: int| 0 <= j < i ==> a@[j] == b@[j],
        decreases a@.len() - i,
    {
        if a[i] != b[i] {
            return false;
        }
        i += 1;
    }
    proof {
        assert(a@ =~= b@);
    }
    true
}

/// A fresh copy of a byte vector.
fn clone_bytes(v: &Vec<u8>) -> (r: Vec<u8>)
    ensures
        r@ == v@,
{
    let mut out: Vec<u8> = Vec::new();
    let mut i: usize = 0;
    while i < v.len()
        invariant
            i <= v@.len(),
            out@ == v@.subrange(0, i as int),
        decreases v@.len() - i,
    {
        out.push(v[i]);
        i += 1;
    }
    proof {
        assert(out@ =~= v@);
    }
    out
}

} // verus!
