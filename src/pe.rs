use vstd::prelude::*;

use crate::fingerprint::compiler_label;
use crate::pattern::BinPattern;

verus! {

/// Little-endian 16-bit value at offset `o`.
pub open spec fn le16(d: Seq<u8>, o: int) -> int {
    d[o] + 256 * d[o + 1]
}

/// Little-endian 32-bit value at offset `o`.
pub open spec fn le32(d: Seq<u8>, o: int) -> int {
    d[o] + 256 * d[o + 1] + 65536 * d[o + 2] + 16777216 * d[o + 3]
}

/// The PE header offset (`e_lfanew`), stored at 0x3C of the DOS header.
pub open spec fn pe_offset(d: Seq<u8>) -> int {
    le32(d, 0x3C)
}

/// The DOS header is at least 0x40 bytes and starts with `MZ`.
pub open spec fn has_dos_header(d: Seq<u8>) -> bool {
    d.len() >= 0x40 && d[0] == 0x4D && d[1] == 0x5A
}

/// The buffer passes the validation chain: a DOS header, an `e_lfanew` below
/// `len - 4`, and `PE\0\0` at that offset.
pub open spec fn has_pe_signature(d: Seq<u8>) -> bool {
    let o = pe_offset(d);
    has_dos_header(d) && o < d.len() - 4 && d[o] == 0x50 && d[o + 1] == 0x45 && d[o + 2] == 0
        && d[o + 3] == 0
}

/// The 8-byte section name at `e` starts with `.text`.
pub open spec fn is_text_name(d: Seq<u8>, e: int) -> bool {
    d[e] == 0x2E && d[e + 1] == 0x74 && d[e + 2] == 0x65 && d[e + 3] == 0x78 && d[e + 4] == 0x74
}

/// Walks the section table at `table`, of `count` entries of 40 bytes, from
/// entry `i`: the first entry named `.text*` gives its raw data when that fits
/// in the buffer; a table cut short by the end of the buffer ends the walk.
pub open spec fn find_text(d: Seq<u8>, table: int, count: int, i: int) -> Option<Seq<u8>>
    decreases count - i,
{
    if i < 0 || i >= count || table + 40 * i + 40 > d.len() {
        None
    } else {
        let e = table + 40 * i;
        if is_text_name(d, e) {
            let off = le32(d, e + 20);
            let size = le32(d, e + 16);
            if off + size <= d.len() {
                Some(d.subrange(off, off + size))
            } else {
                None
            }
        } else {
            find_text(d, table, count, i + 1)
        }
    }
}

/// The raw bytes of the first `.text*` section of a PE image, if any.
pub open spec fn text_section(d: Seq<u8>) -> Option<Seq<u8>> {
    if has_pe_signature(d) && pe_offset(d) + 8 <= d.len() {
        let o = pe_offset(d);
        find_text(d, o + 0xF8, le16(d, o + 6), 0)
    } else {
        None
    }
}

/// A buffer shorter than 0x40 bytes, without `MZ`, with `e_lfanew` at or
/// past `len - 4`, or without `PE\0\0` there, is not a valid PE image: no
/// code section and no header facts come out of it.
pub proof fn lemma_invalid_header_rejected(d: Seq<u8>)
    requires
        d.len() < 0x40 || d[0] != 0x4D || d[1] != 0x5A || pe_offset(d) >= d.len() - 4 || d[pe_offset(
            d,
        )] != 0x50 || d[pe_offset(d) + 1] != 0x45 || d[pe_offset(d) + 2] != 0 || d[pe_offset(d) + 3]
            != 0,
    ensures
        text_section(d) is None,
        !has_file_header(d),
{
}

/// A valid PE image whose first section table entry is named `.text` and
/// whose raw offset and size fit in the buffer yields exactly those bytes as
/// its code section.
pub proof fn lemma_text_section_round_trip(d: Seq<u8>, off: int, size: int)
    requires
        has_pe_signature(d),
        pe_offset(d) + 8 <= d.len(),
        le16(d, pe_offset(d) + 6) >= 1,
        pe_offset(d) + 0xF8 + 40 <= d.len(),
        is_text_name(d, pe_offset(d) + 0xF8),
        le32(d, pe_offset(d) + 0xF8 + 20) == off,
        le32(d, pe_offset(d) + 0xF8 + 16) == size,
        off + size <= d.len(),
    ensures
        text_section(d) == Some(d.subrange(off, off + size)),
{
    let o = pe_offset(d);
    assert(o + 0xF8 + 40 * 0 == o + 0xF8);
}

/// Byte `k` of the little-endian 32-bit encoding of `v`.
pub open spec fn le32_byte(v: nat, k: nat) -> u8 {
    if k == 0 {
        (v % 256) as u8
    } else if k == 1 {
        ((v / 256) % 256) as u8
    } else if k == 2 {
        ((v / 65536) % 256) as u8
    } else {
        ((v / 16777216) % 256) as u8
    }
}

/// A minimal PE image around `code`: DOS header with `e_lfanew` = 0x40,
/// `PE\0\0` there, one section named `.text` in the table at 0x138, whose
/// raw data of `code.len()` bytes starts at 0x160; every other byte is zero.
pub open spec fn minimal_pe(code: Seq<u8>) -> Seq<u8> {
    Seq::new(
        (0x160 + code.len()) as nat,
        |k: int|
            if k >= 0x160 {
                code[k - 0x160]
            } else if k == 0 {
                0x4D
            } else if k == 1 {
                0x5A
            } else if k == 0x3C {
                0x40
            } else if k == 0x40 {
                0x50
            } else if k == 0x41 {
                0x45
            } else if k == 0x46 {
                1
            } else if k == 0x138 {
                0x2E
            } else if k == 0x139 {
                0x74
            } else if k == 0x13A {
                0x65
            } else if k == 0x13B {
                0x78
            } else if k == 0x13C {
                0x74
            } else if 0x148 <= k < 0x14C {
                le32_byte(code.len(), (k - 0x148) as nat)
            } else if k == 0x14C {
                0x60
            } else if k == 0x14D {
                0x01
            } else {
                0
            },
    )
}

/// The code section extracted from a minimal PE image built around `code`
/// is `code` itself.
pub proof fn lemma_minimal_pe_round_trip(code: Seq<u8>)
    requires
        0x160 + code.len() <= 0xFFFF_FFFF,
    ensures
        text_section(minimal_pe(code)) == Some(code),
{
    let d = minimal_pe(code);
    let n = code.len();
    assert(pe_offset(d) == 0x40);
    assert(le16(d, 0x46) == 1);
    assert(le32(d, 0x14C) == 0x160);
    assert(le32(d, 0x148) == n) by (nonlinear_arith)
        requires
            d[0x148] == n % 256,
            d[0x149] == (n / 256) % 256,
            d[0x14A] == (n / 65536) % 256,
            d[0x14B] == (n / 16777216) % 256,
            n < 0x1_0000_0000,
            le32(d, 0x148) == d[0x148] + 256 * d[0x149] + 65536 * d[0x14A] + 16777216 * d[0x14B],
    ;
    lemma_text_section_round_trip(d, 0x160, n as int);
    assert(d.subrange(0x160, 0x160 + n as int) =~= code);
}

/// Reads the little-endian 16-bit value at `o`.
fn read_le16(d: &[u8], o: usize) -> (r: u16)
    requires
        o + 2 <= d@.len(),
    ensures
        r == le16(d@, o as int),
{
    d[o] as u16 + d[o + 1] as u16 * 256
}

/// Reads the little-endian 32-bit value at `o`.
fn read_le32(d: &[u8], o: usize) -> (r: u32)
    requires
        o + 4 <= d@.len(),
    ensures
        r == le32(d@, o as int),
{
    d[o] as u32 + d[o + 1] as u32 * 256 + d[o + 2] as u32 * 65536 + d[o + 3] as u32 * 16777216
}

/// Checks the validation chain and returns the PE header offset.
fn pe_header(d: &[u8]) -> (r: Option<usize>)
    ensures
        r is Some <==> has_pe_signature(d@),
        r matches Some(o) ==> o == pe_offset(d@),
{
    let n = d.len();
    if n < 0x40 || d[0] != 0x4D || d[1] != 0x5A {
        return None;
    }
    let o = read_le32(d, 0x3C) as u64;
    if o >= (n - 4) as u64 {
        return None;
    }
    let o = o as usize;
    if d[o] != 0x50 || d[o + 1] != 0x45 || d[o + 2] != 0 || d[o + 3] != 0 {
        return None;
    }
    Some(o)
}

/// Basic facts read from a PE image's headers.
#[derive(Debug)]
pub struct BinaryInfo {
    pub architecture: String,
    pub is_64bit: bool,
    pub is_dll: bool,
    pub is_system: bool,
    pub is_gui: bool,
    pub compiler: String,
}

/// The architecture named by a COFF machine type.
pub open spec fn arch_label(machine: int) -> Seq<char> {
    if machine == 0x014c {
        "x86"@
    } else if machine == 0x0200 {
        "IA64"@
    } else if machine == 0x8664 {
        "x64"@
    } else if machine == 0x01c4 {
        "ARM"@
    } else if machine == 0xaa64 {
        "ARM64"@
    } else {
        "Unknown"@
    }
}

/// The image is a valid PE whose header words up to the optional-header
/// magic lie inside the buffer.
pub open spec fn has_file_header(d: Seq<u8>) -> bool {
    has_pe_signature(d) && pe_offset(d) + 26 <= d.len()
}

/// `info` holds what the headers of `d` say: machine type at +4,
/// characteristics at +22 and optional-header magic at +24 from the PE
/// header, and the toolchain label of the whole buffer.
pub open spec fn describes(info: BinaryInfo, d: Seq<u8>) -> bool {
    let o = pe_offset(d);
    let flags = le16(d, o + 22) as u16;
    &&& info.architecture@ == arch_label(le16(d, o + 4))
    &&& info.is_64bit == (le16(d, o + 24) == 0x20b)
    &&& info.is_dll == (flags & 0x2000 != 0)
    &&& info.is_system == (flags & 0x1000 != 0)
    &&& info.is_gui == (flags & 0x0002 != 0)
    &&& info.compiler@ == compiler_label(d)
}

/// The name of the architecture of a COFF machine type.
fn architecture_name(machine: u16) -> (r: &'static str)
    ensures
        r@ == arch_label(machine as int),
{
    match machine {
        0x014c => "x86",
        0x0200 => "IA64",
        0x8664 => "x64",
        0x01c4 => "ARM",
        0xaa64 => "ARM64",
        _ => "Unknown",
    }
}

impl BinPattern {
    /// Reads architecture, bitness, characteristics flags and a toolchain
    /// guess; `None` for a buffer that is not a valid PE image or is cut
    /// short inside its file header.
    pub fn get_binary_info(data: &[u8]) -> (r: Option<BinaryInfo>)
        ensures
            r is Some <==> has_file_header(data@),
            r matches Some(info) ==> describes(info, data@),
    {
        let o = match pe_header(data) {
            Some(o) => o,
            None => return None,
        };
        if data.len() - o < 26 {
            return None;
        }
        let machine = read_le16(data, o + 4);
        let characteristics = read_le16(data, o + 22);
        let magic = read_le16(data, o + 24);
        let arch = architecture_name(machine);
        let compiler = Self::detect_compiler(data);
        Some(
            BinaryInfo {
                architecture: arch.to_owned(),
                is_64bit: magic == 0x20b,
                is_dll: (characteristics & 0x2000) != 0,
                is_system: (characteristics & 0x1000) != 0,
                is_gui: (characteristics & 0x0002) != 0,
                compiler: compiler.to_owned(),
            },
        )
    }

    /// Extracts the raw bytes of the first section whose name starts with
    /// `.text`; `None` for a buffer that is not a valid PE image, or whose
    /// first such section is missing or does not fit in the buffer.
    pub fn get_code(data: &[u8]) -> (r: Option<Vec<u8>>)
        ensures
            r matches Some(v) ==> text_section(data@) == Some(v@),
            r is None ==> text_section(data@) is None,
    {
        let o = match pe_header(data) {
            Some(o) => o,
            None => return None,
        };
        let n = data.len();
        if n - o < 8 {
            return None;
        }
        let count = read_le16(data, o + 6) as u64;
        let table = o as u64 + 0xF8;
        let mut i: u64 = 0;
        while i < count
            invariant
                has_pe_signature(data@),
                o == pe_offset(data@),
                o + 8 <= n,
                n == data@.len(),
                table == o + 0xF8,
                count == le16(data@, o + 6),
                count <= 65535,
                i <= count,
                find_text(data@, table as int, count as int, i as int)
                    == text_section(data@),
            decreases count - i,
        {
            let e = table + i * 40;
            if e + 40 > n as u64 {
                return None;
            }
            let e = e as usize;
            if data[e] == 0x2E && data[e + 1] == 0x74 && data[e + 2] == 0x65 && data[e + 3] == 0x78
                && data[e + 4] == 0x74 {
                let off = read_le32(data, e + 20) as u64;
                let size = read_le32(data, e + 16) as u64;
                if off + size > n as u64 {
                    return None;
                }
                let off = off as usize;
                let end = (off as u64 + size) as usize;
                let mut out: Vec<u8> = Vec::new();
                let mut k: usize = off;
                while k < end
                    invariant
                        off <= k <= end,
                        end <= n,
                        n == data@.len(),
                        out@ == data@.subrange(off as int, k as int),
                    decreases end - k,
                {
                    out.push(data[k]);
                    k = k + 1;
                    assert(out@ =~= data@.subrange(off as int, k as int));
                }
                return Some(out);
            }
            i = i + 1;
        }
        None
    }
}

} // verus!
