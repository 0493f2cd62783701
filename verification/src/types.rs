//! Protocol constants and shared types.
use vstd::prelude::*;
use vstd::string::StrSliceExecFns;
use crate::error::{decimal, message_with_number, Error, Result};

verus! {

// ── Connection types ──────────────────────────────────────────────────────────

#[derive(Debug, Clone, PartialEq, Eq, Structural)]
pub enum ConnectionType {
    /// Peer-to-peer content (searches, user info, queuing)
    PeerToPeer,
    /// File transfer
    FileTransfer,
    /// Distributed search network
    Distributed,
}

impl ConnectionType {
    /// The one-letter name of a connection type on the wire.
    pub open spec fn letter(self) -> Seq<char> {
        match self {
            ConnectionType::PeerToPeer => seq!['P'],
            ConnectionType::FileTransfer => seq!['F'],
            ConnectionType::Distributed => seq!['D'],
        }
    }

    pub fn as_str(&self) -> (s: &'static str)
        ensures
            s@ == self.letter(),
    {
        match self {
            ConnectionType::PeerToPeer => {
                proof {
                    reveal_strlit("P");
                }
                "P"
            },
            ConnectionType::FileTransfer => {
                proof {
                    reveal_strlit("F");
                }
                "F"
            },
            ConnectionType::Distributed => {
                proof {
                    reveal_strlit("D");
                }
                "D"
            },
        }
    }

    /// A connection type reads back from its letter, and nothing else does.
    pub proof fn lemma_letter_roundtrip(t: Self, u: Self)
        ensures
            t.letter() == u.letter() ==> t == u,
            t.letter().len() == 1,
    {
        if t.letter() == u.letter() {
            assert(t.letter()[0] == u.letter()[0]);
        }
    }

    pub fn from_str(s: &str) -> (res: Option<Self>)
        ensures
            res matches Some(t) ==> t.letter() == s@,
            res is None ==> (s@ != seq!['P'] && s@ != seq!['F'] && s@ != seq!['D']),
    {
        if s.unicode_len() != 1 {
            return None;
        }
        let c = s.get_char(0);
        assert(s@ == seq![c]);
        if c == 'P' {
            Some(ConnectionType::PeerToPeer)
        } else if c == 'F' {
            Some(ConnectionType::FileTransfer)
        } else if c == 'D' {
            Some(ConnectionType::Distributed)
        } else {
            None
        }
    }
}

// ── User status ───────────────────────────────────────────────────────────────

#[derive(Debug, Clone, Copy, PartialEq, Eq, Structural)]
pub enum UserStatus {
    Offline,
    Away,
    Online,
}

impl UserStatus {
    /// Every value reads back from its wire value.
    pub proof fn lemma_wire_roundtrip(x: Self)
        ensures
            Self::spec_from_wire(x.wire()) == Some(x),
    {
    }

    /// The value with wire value `v`, if there is one.
    pub open spec fn spec_from_wire(v: u32) -> Option<Self> {
        if v == 0 {
            Some(UserStatus::Offline)
        } else if v == 1 {
            Some(UserStatus::Away)
        } else if v == 2 {
            Some(UserStatus::Online)
        } else {
            None
        }
    }

    /// The wire value of a status.
    pub open spec fn wire(self) -> u32 {
        match self {
            UserStatus::Offline => 0,
            UserStatus::Away => 1,
            UserStatus::Online => 2,
        }
    }

    pub fn to_wire(self) -> (v: u32)
        ensures
            v == self.wire(),
    {
        match self {
            UserStatus::Offline => 0,
            UserStatus::Away => 1,
            UserStatus::Online => 2,
        }
    }

    /// The status with wire value `v`, or a protocol error.
    pub fn try_from(v: u32) -> (res: Result<Self>)
        ensures
            v <= 2 ==> (res matches Ok(s) && s.wire() == v && Self::spec_from_wire(v) == Some(s)),
            v > 2 ==> Self::spec_from_wire(v) is None && (res matches Err(Error::Protocol(m)) && m@ == "unknown user status"@ + seq![' ']
                + decimal(v as nat)),
    {
        match v {
            0 => Ok(UserStatus::Offline),
            1 => Ok(UserStatus::Away),
            2 => Ok(UserStatus::Online),
            _ => Err(Error::Protocol(message_with_number("unknown user status", v))),
        }
    }
}

// ── Upload permissions ────────────────────────────────────────────────────────

#[derive(Debug, Clone, Copy, PartialEq, Eq, Structural)]
pub enum UploadPermission {
    NoOne,
    Everyone,
    UsersInList,
    PermittedUsers,
}

impl UploadPermission {
    /// Every value reads back from its wire value.
    pub proof fn lemma_wire_roundtrip(x: Self)
        ensures
            Self::spec_from_wire(x.wire()) == Some(x),
    {
    }

    /// The value with wire value `v`, if there is one.
    pub open spec fn spec_from_wire(v: u32) -> Option<Self> {
        if v == 0 {
            Some(UploadPermission::NoOne)
        } else if v == 1 {
            Some(UploadPermission::Everyone)
        } else if v == 2 {
            Some(UploadPermission::UsersInList)
        } else if v == 3 {
            Some(UploadPermission::PermittedUsers)
        } else {
            None
        }
    }

    /// The wire value of a permission.
    pub open spec fn wire(self) -> u32 {
        match self {
            UploadPermission::NoOne => 0,
            UploadPermission::Everyone => 1,
            UploadPermission::UsersInList => 2,
            UploadPermission::PermittedUsers => 3,
        }
    }

    pub fn to_wire(self) -> (v: u32)
        ensures
            v == self.wire(),
    {
        match self {
            UploadPermission::NoOne => 0,
            UploadPermission::Everyone => 1,
            UploadPermission::UsersInList => 2,
            UploadPermission::PermittedUsers => 3,
        }
    }

    /// The permission with wire value `v`, or a protocol error.
    pub fn try_from(v: u32) -> (res: Result<Self>)
        ensures
            v <= 3 ==> (res matches Ok(s) && s.wire() == v && Self::spec_from_wire(v) == Some(s)),
            v > 3 ==> Self::spec_from_wire(v) is None && (res matches Err(Error::Protocol(m)) && m@ == "unknown upload permission"@
                + seq![' '] + decimal(v as nat)),
    {
        match v {
            0 => Ok(UploadPermission::NoOne),
            1 => Ok(UploadPermission::Everyone),
            2 => Ok(UploadPermission::UsersInList),
            3 => Ok(UploadPermission::PermittedUsers),
            _ => Err(Error::Protocol(message_with_number("unknown upload permission", v))),
        }
    }
}

// ── Transfer direction ────────────────────────────────────────────────────────

#[derive(Debug, Clone, Copy, PartialEq, Eq, Structural)]
pub enum TransferDirection {
    Download,
    Upload,
}

impl TransferDirection {
    /// Every value reads back from its wire value.
    pub proof fn lemma_wire_roundtrip(x: Self)
        ensures
            Self::spec_from_wire(x.wire()) == Some(x),
    {
    }

    /// The value with wire value `v`, if there is one.
    pub open spec fn spec_from_wire(v: u32) -> Option<Self> {
        if v == 0 {
            Some(TransferDirection::Download)
        } else if v == 1 {
            Some(TransferDirection::Upload)
        } else {
            None
        }
    }

    /// The wire value of a direction.
    pub open spec fn wire(self) -> u32 {
        match self {
            TransferDirection::Download => 0,
            TransferDirection::Upload => 1,
        }
    }

    pub fn to_wire(self) -> (v: u32)
        ensures
            v == self.wire(),
    {
        match self {
            TransferDirection::Download => 0,
            TransferDirection::Upload => 1,
        }
    }

    /// The direction with wire value `v`, or a protocol error.
    pub fn try_from(v: u32) -> (res: Result<Self>)
        ensures
            v <= 1 ==> (res matches Ok(s) && s.wire() == v && Self::spec_from_wire(v) == Some(s)),
            v > 1 ==> Self::spec_from_wire(v) is None && (res matches Err(Error::Protocol(m)) && m@ == "unknown transfer direction"@
                + seq![' '] + decimal(v as nat)),
    {
        match v {
            0 => Ok(TransferDirection::Download),
            1 => Ok(TransferDirection::Upload),
            _ => Err(Error::Protocol(message_with_number("unknown transfer direction", v))),
        }
    }
}

// ── Obfuscation ───────────────────────────────────────────────────────────────

#[derive(Debug, Clone, Copy, PartialEq, Eq, Structural)]
pub enum ObfuscationType {
    Plain,
    Rotated,
}

impl Default for ObfuscationType {
    fn default() -> (t: Self)
        ensures
            t == ObfuscationType::Plain,
    {
        ObfuscationType::Plain
    }
}

impl ObfuscationType {
    /// Every value reads back from its wire value.
    pub proof fn lemma_wire_roundtrip(x: Self)
        ensures
            Self::spec_from_wire(x.wire()) == Some(x),
    {
    }

    /// The value with wire value `v`, if there is one.
    pub open spec fn spec_from_wire(v: u32) -> Option<Self> {
        if v == 0 {
            Some(ObfuscationType::Plain)
        } else if v == 1 {
            Some(ObfuscationType::Rotated)
        } else {
            None
        }
    }

    /// The wire value of an obfuscation type.
    pub open spec fn wire(self) -> u32 {
        match self {
            ObfuscationType::Plain => 0,
            ObfuscationType::Rotated => 1,
        }
    }

    pub fn to_wire(self) -> (v: u32)
        ensures
            v == self.wire(),
    {
        match self {
            ObfuscationType::Plain => 0,
            ObfuscationType::Rotated => 1,
        }
    }

    /// The obfuscation type with wire value `v`, or a protocol error.
    pub fn try_from(v: u32) -> (res: Result<Self>)
        ensures
            v <= 1 ==> (res matches Ok(s) && s.wire() == v && Self::spec_from_wire(v) == Some(s)),
            v > 1 ==> Self::spec_from_wire(v) is None && (res matches Err(Error::Protocol(m)) && m@ == "unknown obfuscation type"@
                + seq![' '] + decimal(v as nat)),
    {
        match v {
            0 => Ok(ObfuscationType::Plain),
            1 => Ok(ObfuscationType::Rotated),
            _ => Err(Error::Protocol(message_with_number("unknown obfuscation type", v))),
        }
    }
}

// ── File attributes ───────────────────────────────────────────────────────────

#[derive(Debug, Clone, Copy, PartialEq, Eq, Structural)]
pub enum FileAttributeType {
    Bitrate,
    Duration,
    Vbr,
    Encoder,
    SampleRate,
    BitDepth,
}

impl FileAttributeType {
    /// Every value reads back from its wire value.
    pub proof fn lemma_wire_roundtrip(x: Self)
        ensures
            Self::spec_from_wire(x.wire()) == Some(x),
    {
    }

    /// The wire value of an attribute type.
    pub open spec fn wire(self) -> u32 {
        match self {
            FileAttributeType::Bitrate => 0,
            FileAttributeType::Duration => 1,
            FileAttributeType::Vbr => 2,
            FileAttributeType::Encoder => 3,
            FileAttributeType::SampleRate => 4,
            FileAttributeType::BitDepth => 5,
        }
    }

    pub fn to_wire(self) -> (v: u32)
        ensures
            v == self.wire(),
    {
        match self {
            FileAttributeType::Bitrate => 0,
            FileAttributeType::Duration => 1,
            FileAttributeType::Vbr => 2,
            FileAttributeType::Encoder => 3,
            FileAttributeType::SampleRate => 4,
            FileAttributeType::BitDepth => 5,
        }
    }

    /// The attribute type with wire value `v`, if there is one.
    pub open spec fn spec_from_wire(v: u32) -> Option<Self> {
        if v == 0 {
            Some(FileAttributeType::Bitrate)
        } else if v == 1 {
            Some(FileAttributeType::Duration)
        } else if v == 2 {
            Some(FileAttributeType::Vbr)
        } else if v == 3 {
            Some(FileAttributeType::Encoder)
        } else if v == 4 {
            Some(FileAttributeType::SampleRate)
        } else if v == 5 {
            Some(FileAttributeType::BitDepth)
        } else {
            None
        }
    }

    /// The attribute type with wire value `v`, or a protocol error.
    pub fn try_from(v: u32) -> (res: Result<Self>)
        ensures
            v <= 5 ==> (res matches Ok(s) && s.wire() == v && Self::spec_from_wire(v) == Some(s)),
            v > 5 ==> Self::spec_from_wire(v) is None && (res matches Err(Error::Protocol(m)) && m@ == "unknown file attribute"@
                + seq![' '] + decimal(v as nat)),
    {
        match v {
            0 => Ok(FileAttributeType::Bitrate),
            1 => Ok(FileAttributeType::Duration),
            2 => Ok(FileAttributeType::Vbr),
            3 => Ok(FileAttributeType::Encoder),
            4 => Ok(FileAttributeType::SampleRate),
            5 => Ok(FileAttributeType::BitDepth),
            _ => Err(Error::Protocol(message_with_number("unknown file attribute", v))),
        }
    }
}

/// An attribute of a shared file (bitrate, duration, ...).
#[derive(Debug, Clone, Copy, PartialEq, Eq, Structural)]
pub struct FileAttribute {
    pub code: FileAttributeType,
    pub value: u32,
}

impl View for FileAttribute {
    type V = FileAttribute;

    open spec fn view(&self) -> FileAttribute {
        *self
    }
}

// ── Shared file entry ─────────────────────────────────────────────────────────

#[derive(Debug, Clone)]
pub struct SharedFile {
    /// Always 1 in practice
    pub code: u8,
    pub filename: String,
    pub size: u64,
    pub extension: String,
    pub attributes: Vec<FileAttribute>,
}

impl View for SharedFile {
    type V = (u8, Seq<char>, u64, Seq<char>, Seq<FileAttribute>);

    open spec fn view(&self) -> Self::V {
        (self.code, self.filename@, self.size, self.extension@, self.attributes@)
    }
}

// ── User stats ────────────────────────────────────────────────────────────────

#[derive(Debug, Clone, Copy, PartialEq, Eq, Structural)]
pub struct UserStats {
    pub avg_speed: u32,
    pub upload_num: u32,
    pub unknown: u32,
    pub files: u32,
    pub dirs: u32,
}

impl View for UserStats {
    type V = UserStats;

    open spec fn view(&self) -> UserStats {
        *self
    }
}

impl Default for UserStats {
    fn default() -> (s: Self)
        ensures
            s == (UserStats { avg_speed: 0, upload_num: 0, unknown: 0, files: 0, dirs: 0 }),
    {
        UserStats { avg_speed: 0, upload_num: 0, unknown: 0, files: 0, dirs: 0 }
    }
}

} // verus!
