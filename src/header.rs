//! The machine field of a portable-executable header, and the architecture
//! family it names.
use vstd::prelude::*;
use vstd::string::*;

verus! {

/// The architecture families that have patches.
#[derive(Clone, Copy, Debug, PartialEq, Eq, Structural)]
pub enum Architecture {
    Amd64,
    I386,
    Arm,
    Arm64,
}

/// Why an image could not be classified.
#[derive(Clone, Copy, Debug, PartialEq, Eq, Structural)]
pub enum ClassificationError {
    /// The image ends before a header field that must be read.
    Truncated,
    /// The header names a machine outside the supported families.
    UnsupportedMachine(u16),
}

pub const MACHINE_AMD64: u16 = 0x8664;
pub const MACHINE_I386: u16 = 0x14c;
pub const MACHINE_ARM: u16 = 0x1c0;
pub const MACHINE_ARMNT: u16 = 0x1c4;
pub const MACHINE_ARM64: u16 = 0xaa64;

/// Where the offset of the secondary header is stored.
pub const HEADER_OFFSET_FIELD: usize = 0x3c;

/// The length of the signature that opens the secondary header.
pub const SIGNATURE_LEN: u64 = 4;

/// Little-endian value of the two bytes at `at`.
pub open spec fn le_u16(s: Seq<u8>, at: int) -> int {
    s[at] + 256 * s[at + 1]
}

/// Little-endian value of the four bytes at `at`.
pub open spec fn le_u32(s: Seq<u8>, at: int) -> int {
    s[at] + 256 * s[at + 1] + 65536 * s[at + 2] + 16777216 * s[at + 3]
}

/// The family of a machine code, if it is one of the supported ones.
pub open spec fn machine_family(code: u16) -> Option<Architecture> {
    if code == MACHINE_AMD64 {
        Some(Architecture::Amd64)
    } else if code == MACHINE_I386 {
        Some(Architecture::I386)
    } else if code == MACHINE_ARM || code == MACHINE_ARMNT {
        Some(Architecture::Arm)
    } else if code == MACHINE_ARM64 {
        Some(Architecture::Arm64)
    } else {
        None
    }
}

/// Position of the machine field: past the signature of the secondary header.
pub open spec fn machine_field(image: Seq<u8>) -> int {
    le_u32(image, HEADER_OFFSET_FIELD as int) + SIGNATURE_LEN
}

/// What an image's header says of its architecture.
pub open spec fn classify(image: Seq<u8>) -> Result<Architecture, ClassificationError> {
    if image.len() < HEADER_OFFSET_FIELD + 4 {
        Err(ClassificationError::Truncated)
    } else if machine_field(image) + 2 > image.len() {
        Err(ClassificationError::Truncated)
    } else {
        let code = le_u16(image, machine_field(image)) as u16;
        match machine_family(code) {
            Some(a) => Ok(a),
            None => Err(ClassificationError::UnsupportedMachine(code)),
        }
    }
}

/// Reads the machine field of a module image and returns its architecture
/// family.
pub fn check_machine(data: &[u8]) -> (r: Result<Architecture, ClassificationError>)
    ensures
        r == classify(data@),
{
    if data.len() < HEADER_OFFSET_FIELD + 4 {
        return Err(ClassificationError::Truncated);
    }
    let at = HEADER_OFFSET_FIELD;
    let offset: u64 = data[at] as u64 + 256 * (data[at + 1] as u64) + 65536 * (data[at + 2] as u64)
        + 16777216 * (data[at + 3] as u64);
    let field: u64 = offset + SIGNATURE_LEN;
    if field + 2 > data.len() as u64 {
        return Err(ClassificationError::Truncated);
    }
    let f = field as usize;
    let code: u16 = data[f] as u16 + 256 * (data[f + 1] as u16);
    if code == MACHINE_AMD64 {
        Ok(Architecture::Amd64)
    } else if code == MACHINE_I386 {
        Ok(Architecture::I386)
    } else if code == MACHINE_ARM || code == MACHINE_ARMNT {
        Ok(Architecture::Arm)
    } else if code == MACHINE_ARM64 {
        Ok(Architecture::Arm64)
    } else {
        Err(ClassificationError::UnsupportedMachine(code))
    }
}

/// Classification depends on the image's bytes alone: equal images get the
/// same architecture or the same error.
pub proof fn lemma_classify_deterministic(a: Seq<u8>, b: Seq<u8>)
    requires
        a == b,
    ensures
        classify(a) == classify(b),
{
}

/// The name of a family, as the patch table is keyed.
pub open spec fn family_name(a: Architecture) -> Seq<char> {
    match a {
        Architecture::Amd64 => seq!['a', 'm', 'd', '6', '4'],
        Architecture::I386 => seq!['i', '3', '8', '6'],
        Architecture::Arm => seq!['a', 'r', 'm'],
        Architecture::Arm64 => seq!['a', 'r', 'm', '6', '4'],
    }
}

impl Architecture {
    /// The family's name.
    pub fn name(&self) -> (r: &'static str)
        ensures
            r@ == family_name(*self),
    {
        match self {
            Architecture::Amd64 => {
                proof { reveal_strlit("amd64"); }
                "amd64"
            },
            Architecture::I386 => {
                proof { reveal_strlit("i386"); }
                "i386"
            },
            Architecture::Arm => {
                proof { reveal_strlit("arm"); }
                "arm"
            },
            Architecture::Arm64 => {
                proof { reveal_strlit("arm64"); }
                "arm64"
            },
        }
    }

    /// The family whose name is `name`, if any.
    pub fn from_name(name: &str) -> (r: Option<Architecture>)
        ensures
            r matches Some(a) ==> family_name(a) == name@,
            r is None ==> forall|a: Architecture| family_name(a) != name@,
    {
        let candidates = [Architecture::Amd64, Architecture::I386, Architecture::Arm, Architecture::Arm64];
        let mut k: usize = 0;
        while k < 4
            invariant
                0 <= k <= 4,
                candidates@ == seq![Architecture::Amd64, Architecture::I386, Architecture::Arm, Architecture::Arm64],
                forall|j: int| 0 <= j < k ==> family_name(candidates@[j]) != name@,
            decreases 4 - k,
        {
            let a = candidates[k];
            if same_chars(a.name(), name) {
                return Some(a);
            }
            k = k + 1;
        }
        proof {
            assert forall|a: Architecture| family_name(a) != name@ by {
                match a {
                    Architecture::Amd64 => assert(candidates@[0] == a),
                    Architecture::I386 => assert(candidates@[1] == a),
                    Architecture::Arm => assert(candidates@[2] == a),
                    Architecture::Arm64 => assert(candidates@[3] == a),
                }
            }
        }
        None
    }
}

/// Whether two strings hold the same characters.
fn same_chars(a: &str, b: &str) -> (r: bool)
    ensures
        r == (a@ == b@),
{
    let n = a.unicode_len();
    if n != b.unicode_len() {
        return false;
    }
    let mut i: usize = 0;
    while i < n
        invariant
            n == a@.len(),
            n == b@.len(),
            0 <= i <= n,
            forall|j: int| 0 <= j < i ==> a@[j] == b@[j],
        decreases n - i,
    {
        if a.get_char(i) != b.get_char(i) {
            return false;
        }
        i = i + 1;
    }
    assert(a@ =~= b@);
    true
}

} // verus!
