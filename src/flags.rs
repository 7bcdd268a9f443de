//! Bit-flag sets carried by USN journal records, with a description for each
//! single flag.
use vstd::prelude::*;

verus! {

/// Every reason bit that a USN record can carry.
pub const USN_REASON_ALL: u32 = 0x80BF_FF77;

/// Every source-info bit that a USN record can carry.
pub const USN_SOURCE_ALL: u32 = 0x0000_0007;

/// Every file-attribute bit that a USN record can carry.
pub const FILE_ATTRIBUTE_ALL: u32 = 0x3000_7FE7;

/// Why a USN record was written: a set of reason bits.
#[derive(Clone, Copy, Debug, PartialEq, Eq, Structural)]
pub struct UsnReasonFlags {
    pub bits: u32,
}

/// Where the change recorded by a USN record came from.
#[derive(Clone, Copy, Debug, PartialEq, Eq, Structural)]
pub struct UsnSourceInfoFlags {
    pub bits: u32,
}

/// The attributes of the file a USN record is about.
#[derive(Clone, Copy, Debug, PartialEq, Eq, Structural)]
pub struct FileAttributeFlags {
    pub bits: u32,
}

/// The description of a set that holds exactly one known reason bit; empty
/// for any other set.
pub open spec fn reason_meaning(bits: u32) -> Seq<char> {
    if bits == 0x00008000 {
        "A user has either changed one or more files or directory attributes (such as read-only, hidden, archive, or sparse) or one or more time stamps."@
    } else if bits == 0x80000000 {
        "The file or directory is closed."@
    } else if bits == 0x00020000 {
        "The compression state of the file or directory is changed from (or to) compressed."@
    } else if bits == 0x00000002 {
        "The file or directory is extended (added to)."@
    } else if bits == 0x00000001 {
        "The data in the file or directory is overwritten."@
    } else if bits == 0x00000004 {
        "The file or directory is truncated."@
    } else if bits == 0x00000400 {
        "The user made a change to the extended attributes of a file or directory. These NTFS file system attributes are not accessible to nonnative applications. This USN reason does not appear under normal system usage but can appear if an application or utility bypasses the Win32 API and uses the native API to create or modify extended attributes of a file or directory."@
    } else if bits == 0x00040000 {
        "The file or directory is encrypted or decrypted."@
    } else if bits == 0x00000100 {
        "The file or directory is created for the first time."@
    } else if bits == 0x00000200 {
        "The file or directory is deleted."@
    } else if bits == 0x00010000 {
        "A hard link is added to (or removed from) the file or directory."@
    } else if bits == 0x00004000 {
        "A user changes the FILE_ATTRIBUTE_NOT_CONTEXT_INDEXED attribute. That is, the user changes the file or directory from one in which content can be indexed to one in which content cannot be indexed, or vice versa."@
    } else if bits == 0x00000020 {
        "The one (or more) named data stream for a file is extended (added to)."@
    } else if bits == 0x00000010 {
        "The data in one (or more) named data stream for a file is overwritten."@
    } else if bits == 0x00000040 {
        "One (or more) named data stream for a file is truncated."@
    } else if bits == 0x00080000 {
        "The object identifier of a file or directory is changed."@
    } else if bits == 0x00002000 {
        "A file or directory is renamed, and the file name in the USN_RECORD structure is the new name."@
    } else if bits == 0x00001000 {
        "The file or directory is renamed, and the file name in the USN_RECORD structure is the previous name."@
    } else if bits == 0x00100000 {
        "The reparse point that is contained in a file or directory is changed, or a reparse point is added to (or deleted from) a file or directory."@
    } else if bits == 0x00000800 {
        "A change is made in the access rights to a file or directory."@
    } else if bits == 0x00200000 {
        "A named stream is added to (or removed from) a file, or a named stream is renamed."@
    } else if bits == 0x00800000 {
        "A change is made in the integrity status of a file or directory."@
    } else {
        ""@
    }
}

/// The description of a set that holds exactly one known source-info bit;
/// empty for any other set.
pub open spec fn source_meaning(bits: u32) -> Seq<char> {
    if bits == 0x00000001 {
        "The operation provides information about a change to the file or directory that was made by the operating system. For example, a change journal record with this SourceInfo value is generated when the Remote Storage system moves data from external to local storage. This SourceInfo value indicates that the modifications did not change the application data in the file."@
    } else if bits == 0x00000002 {
        "The operation adds a private data stream to a file or directory. For example, a virus detector might add checksum information. As the virus detector modifies the item, the system generates USN records. This SourceInfo value indicates that the modifications did not change the application data in the file."@
    } else if bits == 0x00000004 {
        "The operation modified the file to match the content of the same file that exists in another member of the replica set for the File Replication Service (FRS)."@
    } else {
        ""@
    }
}

impl UsnReasonFlags {
    /// Keeps the known reason bits of `bits` and drops the others.
    pub fn from_bits_truncate(bits: u32) -> (r: Self)
        ensures
            r.bits == bits & USN_REASON_ALL,
    {
        UsnReasonFlags { bits: bits & USN_REASON_ALL }
    }

    pub fn bits(&self) -> (r: u32)
        ensures
            r == self.bits,
    {
        self.bits
    }

    /// Whether every bit of `other` is in this set.
    pub fn contains(&self, other: UsnReasonFlags) -> (r: bool)
        ensures
            r == (self.bits & other.bits == other.bits),
    {
        self.bits & other.bits == other.bits
    }

    pub fn get_meaning(&self) -> (r: &'static str)
        ensures
            r@ == reason_meaning(self.bits),
    {
        match self.bits {
            0x00008000 => "A user has either changed one or more files or directory attributes (such as read-only, hidden, archive, or sparse) or one or more time stamps.",
            0x80000000 => "The file or directory is closed.",
            0x00020000 => "The compression state of the file or directory is changed from (or to) compressed.",
            0x00000002 => "The file or directory is extended (added to).",
            0x00000001 => "The data in the file or directory is overwritten.",
            0x00000004 => "The file or directory is truncated.",
            0x00000400 => "The user made a change to the extended attributes of a file or directory. These NTFS file system attributes are not accessible to nonnative applications. This USN reason does not appear under normal system usage but can appear if an application or utility bypasses the Win32 API and uses the native API to create or modify extended attributes of a file or directory.",
            0x00040000 => "The file or directory is encrypted or decrypted.",
            0x00000100 => "The file or directory is created for the first time.",
            0x00000200 => "The file or directory is deleted.",
            0x00010000 => "A hard link is added to (or removed from) the file or directory.",
            0x00004000 => "A user changes the FILE_ATTRIBUTE_NOT_CONTEXT_INDEXED attribute. That is, the user changes the file or directory from one in which content can be indexed to one in which content cannot be indexed, or vice versa.",
            0x00000020 => "The one (or more) named data stream for a file is extended (added to).",
            0x00000010 => "The data in one (or more) named data stream for a file is overwritten.",
            0x00000040 => "One (or more) named data stream for a file is truncated.",
            0x00080000 => "The object identifier of a file or directory is changed.",
            0x00002000 => "A file or directory is renamed, and the file name in the USN_RECORD structure is the new name.",
            0x00001000 => "The file or directory is renamed, and the file name in the USN_RECORD structure is the previous name.",
            0x00100000 => "The reparse point that is contained in a file or directory is changed, or a reparse point is added to (or deleted from) a file or directory.",
            0x00000800 => "A change is made in the access rights to a file or directory.",
            0x00200000 => "A named stream is added to (or removed from) a file, or a named stream is renamed.",
            0x00800000 => "A change is made in the integrity status of a file or directory.",
            _ => "",
        }
    }
}

impl UsnSourceInfoFlags {
    /// Keeps the known source-info bits of `bits` and drops the others.
    pub fn from_bits_truncate(bits: u32) -> (r: Self)
        ensures
            r.bits == bits & USN_SOURCE_ALL,
    {
        UsnSourceInfoFlags { bits: bits & USN_SOURCE_ALL }
    }

    pub fn bits(&self) -> (r: u32)
        ensures
            r == self.bits,
    {
        self.bits
    }

    pub fn get_meaning(&self) -> (r: &'static str)
        ensures
            r@ == source_meaning(self.bits),
    {
        match self.bits {
            0x00000001 => "The operation provides information about a change to the file or directory that was made by the operating system. For example, a change journal record with this SourceInfo value is generated when the Remote Storage system moves data from external to local storage. This SourceInfo value indicates that the modifications did not change the application data in the file.",
            0x00000002 => "The operation adds a private data stream to a file or directory. For example, a virus detector might add checksum information. As the virus detector modifies the item, the system generates USN records. This SourceInfo value indicates that the modifications did not change the application data in the file.",
            0x00000004 => "The operation modified the file to match the content of the same file that exists in another member of the replica set for the File Replication Service (FRS).",
            _ => "",
        }
    }
}

impl FileAttributeFlags {
    /// Keeps the known attribute bits of `bits` and drops the others.
    pub fn from_bits_truncate(bits: u32) -> (r: Self)
        ensures
            r.bits == bits & FILE_ATTRIBUTE_ALL,
    {
        FileAttributeFlags { bits: bits & FILE_ATTRIBUTE_ALL }
    }

    pub fn bits(&self) -> (r: u32)
        ensures
            r == self.bits,
    {
        self.bits
    }
}

} // verus!
