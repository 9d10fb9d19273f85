//! Rules of the Crypt-Data workspace: recognising wrapped files by their
//! magic, the raw size a wrapped file declares, what processing will give,
//! export names, and the hex preview.
use vstd::prelude::*;

use crate::bnk::labels::{hex_byte, is_ascii_graphic, push_hex_byte, spaced_hex};
use crate::text::{chars_of, has_suffix, lower, push_str, string_of, string_of_all};

verus! {

/// Whether a file is plain data or a wrapped (`CRYPT_RES`) document.
#[derive(Clone, Copy, Debug, PartialEq, Eq, Structural)]
pub enum SourceKind {
    Raw,
    Wrapped,
}

/// What processing does to a file.
#[derive(Clone, Copy, Debug, PartialEq, Eq, Structural)]
pub enum TransformMode {
    Encrypt,
    Decrypt,
}

impl SourceKind {
    /// The name shown for a source kind.
    pub fn label(self) -> (s: &'static str)
        ensures
            self == SourceKind::Raw ==> s@ == "原始文件"@,
            self == SourceKind::Wrapped ==> s@ == "CRYPT_RES"@,
    {
        match self {
            SourceKind::Raw => "原始文件",
            SourceKind::Wrapped => "CRYPT_RES",
        }
    }

    /// Raw files are encrypted, wrapped ones decrypted.
    pub fn mode(self) -> (m: TransformMode)
        ensures
            self == SourceKind::Raw ==> m == TransformMode::Encrypt,
            self == SourceKind::Wrapped ==> m == TransformMode::Decrypt,
    {
        match self {
            SourceKind::Raw => TransformMode::Encrypt,
            SourceKind::Wrapped => TransformMode::Decrypt,
        }
    }
}

/// The verb shown for processing a source kind.
pub fn operation_label(kind: SourceKind) -> (s: &'static str)
    ensures
        kind == SourceKind::Raw ==> s@ == "加密"@,
        kind == SourceKind::Wrapped ==> s@ == "解密"@,
{
    match kind {
        SourceKind::Raw => "加密",
        SourceKind::Wrapped => "解密",
    }
}

/// Whether `bytes` begins with `magic`.
pub open spec fn starts_with_bytes(bytes: Seq<u8>, magic: Seq<u8>) -> bool {
    magic.len() <= bytes.len() && bytes.subrange(0, magic.len() as int) == magic
}

/// Whether `bytes` begins with `magic`.
fn bytes_start_with(bytes: &[u8], magic: &[u8]) -> (r: bool)
    ensures
        r == starts_with_bytes(bytes@, magic@),
{
    if magic.len() > bytes.len() {
        return false;
    }
    let mut i: usize = 0;
    while i < magic.len()
        invariant
            magic@.len() <= bytes@.len(),
            i <= magic@.len(),
            forall|j: int| 0 <= j < i ==> bytes@[j] == magic@[j],
        decreases magic@.len() - i,
    {
        if bytes[i] != magic[i] {
            assert(bytes@.subrange(0, magic@.len() as int)[i as int] != magic@[i as int]);
            return false;
        }
        i = i + 1;
    }
    assert(bytes@.subrange(0, magic@.len() as int) =~= magic@);
    true
}

/// A file is wrapped when it starts with the format's magic.
pub fn detect_source_kind(bytes: &[u8], magic: &[u8]) -> (k: SourceKind)
    ensures
        k == if starts_with_bytes(bytes@, magic@) {
            SourceKind::Wrapped
        } else {
            SourceKind::Raw
        },
{
    if bytes_start_with(bytes, magic) {
        SourceKind::Wrapped
    } else {
        SourceKind::Raw
    }
}

/// The little-endian value of `bytes`.
pub open spec fn le_value(bytes: Seq<u8>) -> nat
    decreases bytes.len(),
{
    if bytes.len() == 0 {
        0
    } else {
        (bytes[0] as nat) + 256 * le_value(bytes.drop_first())
    }
}

/// Eight bytes hold less than 2^64.
proof fn lemma_le_value_bound(bytes: Seq<u8>)
    ensures
        le_value(bytes) < vstd::arithmetic::power::pow(256, bytes.len()),
    decreases bytes.len(),
{
    vstd::arithmetic::power::lemma_pow_positive(256, bytes.len());
    if bytes.len() > 0 {
        lemma_le_value_bound(bytes.drop_first());
        let rest = le_value(bytes.drop_first());
        let p = vstd::arithmetic::power::pow(256, (bytes.len() - 1) as nat);
        vstd::arithmetic::power::lemma_pow_adds(256, 1, (bytes.len() - 1) as nat);
        vstd::arithmetic::power::lemma_pow1(256);
        assert(bytes[0] + 256 * rest < 256 * p) by (nonlinear_arith)
            requires
                rest < p,
                bytes[0] < 256,
        ;
    }
}

/// The raw size a wrapped file declares: the little-endian `u64` between
/// the magic and the end of the header, when the file is long enough, starts
/// with the magic, that span is eight bytes, and the value fits a `usize`.
pub fn declared_raw_size(bytes: &[u8], magic: &[u8], header_size: usize) -> (r: Option<usize>)
    requires
        magic@.len() <= header_size,
    ensures
        ({
            let ok = bytes@.len() >= header_size && starts_with_bytes(bytes@, magic@) && header_size - magic@.len() == 8;
            let v = le_value(bytes@.subrange(magic@.len() as int, header_size as int));
            &&& !ok ==> r is None
            &&& ok && v > usize::MAX ==> r is None
            &&& ok && v <= usize::MAX ==> r == Some(v as usize)
        }),
{
    if bytes.len() < header_size || !bytes_start_with(bytes, magic) {
        return None;
    }
    if header_size - magic.len() != 8 {
        return None;
    }
    let lo = magic.len();
    let ghost field = bytes@.subrange(lo as int, header_size as int);
    let mut v: u64 = 0;
    let mut i: usize = 8;
    proof {
        lemma_le_value_bound(field);
        vstd::arithmetic::power::lemma_pow_positive(256, 8);
        vstd::arithmetic::power::lemma_pow0(256);
        assert(field.skip(8) =~= Seq::<u8>::empty());
    }
    while i > 0
        invariant
            lo + 8 == header_size,
            header_size <= bytes@.len(),
            field == bytes@.subrange(lo as int, header_size as int),
            i <= 8,
            v == le_value(field.skip(i as int)),
            le_value(field.skip(i as int)) < vstd::arithmetic::power::pow(256, (8 - i) as nat),
        decreases i,
    {
        let b = bytes[lo + i - 1];
        proof {
            let rest = field.skip(i as int);
            let longer = field.skip(i - 1);
            assert(longer.drop_first() =~= rest);
            assert(longer[0] == b);
            lemma_le_value_bound(longer);
            assert(longer.len() == 8 - (i - 1));
            vstd::arithmetic::power::lemma_pow_increases(256, (8 - (i - 1)) as nat, 8);
            assert(vstd::arithmetic::power::pow(256, 8) == 0x1_0000_0000_0000_0000) by {
                reveal_with_fuel(vstd::arithmetic::power::pow, 9);
            }
        }
        v = (b as u64) + 256 * v;
        i = i - 1;
    }
    assert(field.skip(0) =~= field);
    if v as u128 > usize::MAX as u128 {
        None
    } else {
        Some(v as usize)
    }
}

/// What processing will produce, shown before it runs: a wrapped file gives
/// a raw file; a raw file is wrapped once it reaches the encryption limit
/// (or its result is already wrapped), otherwise passed through unchanged.
pub fn output_kind(kind: SourceKind, source_len: usize, limit: usize, result: Option<&[u8]>, magic: &[u8]) -> (s: &'static str)
    ensures
        kind == SourceKind::Wrapped ==> s@ == "原始文件"@,
        kind == SourceKind::Raw && (source_len >= limit || (result matches Some(r) && starts_with_bytes(r@, magic@)))
            ==> s@ == "CRYPT_RES"@,
        kind == SourceKind::Raw && !(source_len >= limit || (result matches Some(r) && starts_with_bytes(r@, magic@)))
            ==> s@ == "透传文件"@,
{
    match kind {
        SourceKind::Wrapped => "原始文件",
        SourceKind::Raw => {
            let wrapped = match result {
                Some(r) => bytes_start_with(r, magic),
                None => false,
            };
            if source_len >= limit || wrapped {
                "CRYPT_RES"
            } else {
                "透传文件"
            }
        },
    }
}

/// The export name of a result: a raw file gets `.cdat` (`.encrypted.cdat`
/// when it already ends in `.cdat`); a decrypted file loses its `.cdat`
/// (becoming `decrypted.bin` when nothing is left) or gains `.decrypted`.
pub open spec fn spec_output_name(name: Seq<char>, kind: SourceKind) -> Seq<char> {
    let cdat = has_suffix(lower(name), ".cdat"@);
    let stem = name.subrange(0, name.len() - 5);
    match kind {
        SourceKind::Raw => if cdat {
            stem + ".encrypted.cdat"@
        } else {
            name + ".cdat"@
        },
        SourceKind::Wrapped => if cdat {
            if stem.len() == 0 {
                "decrypted.bin"@
            } else {
                stem
            }
        } else {
            name + ".decrypted"@
        },
    }
}

/// The export name of a result.
pub fn output_name(name: &str, kind: SourceKind) -> (s: String)
    ensures
        s@ == spec_output_name(name@, kind),
{
    let v = chars_of(name);
    let cdat = crate::text::ends_with_lower(&v, ".cdat");
    proof {
        reveal_strlit(".cdat");
        crate::text::lemma_lower_len(name@);
    }
    match kind {
        SourceKind::Raw => {
            if cdat {
                let mut w: Vec<char> = Vec::new();
                crate::text::push_range(&mut w, &v, 0, v.len() - 5);
                push_str(&mut w, ".encrypted.cdat");
                string_of_all(&w)
            } else {
                let mut w = v;
                push_str(&mut w, ".cdat");
                string_of_all(&w)
            }
        },
        SourceKind::Wrapped => {
            if cdat {
                if v.len() == 5 {
                    "decrypted.bin".to_owned()
                } else {
                    string_of(&v, 0, v.len() - 5)
                }
            } else {
                let mut w = v;
                push_str(&mut w, ".decrypted");
                string_of_all(&w)
            }
        },
    }
}

/// Whether the result must be produced again: there is none yet, or the key
/// or limit changed since it was built.
pub fn needs_processing(has_result: bool, key: &str, built_key: &str, limit: usize, built_limit: usize) -> (r: bool)
    ensures
        r == (!has_result || key@ != built_key@ || limit != built_limit),
{
    let a = chars_of(key);
    let b = chars_of(built_key);
    assert(a@.subrange(0, a@.len() as int) =~= a@);
    let same = a.len() == b.len() && crate::text::range_equals(&a, 0, a.len(), &b);
    !has_result || !same || limit != built_limit
}

/// One line of the hex preview.
pub struct PreviewLine {
    pub offset: String,
    pub bytes: String,
    pub ascii: String,
}

/// The preview character of a byte: printable ASCII and space as is, a
/// middle dot otherwise.
pub open spec fn preview_char(b: u8) -> char {
    if is_ascii_graphic(b) || b == 0x20 {
        b as char
    } else {
        '·'
    }
}

/// The hexadecimal digits of an offset, eight of them, upper case.
pub open spec fn hex_offset(n: nat) -> Seq<char> {
    hex_byte(((n / 0x1000000) % 256) as u8) + hex_byte(((n / 0x10000) % 256) as u8) + hex_byte(
        ((n / 0x100) % 256) as u8,
    ) + hex_byte((n % 256) as u8)
}

/// Whether `line` shows the bytes `chunk` found at `offset`.
pub open spec fn shows_line(line: PreviewLine, offset: nat, chunk: Seq<u8>) -> bool {
    &&& line.offset@ == hex_offset(offset)
    &&& line.bytes@ == spaced_hex(chunk)
    &&& line.ascii@ == chunk.map_values(|b: u8| preview_char(b))
}

/// The hex preview of the first 128 bytes: lines of 16 bytes each, with the
/// offset, the bytes in hexadecimal and their printable characters.
pub fn preview_lines(data: &[u8]) -> (lines: Vec<PreviewLine>)
    ensures
        ({
            let n = if data@.len() < 128 {
                data@.len() as int
            } else {
                128
            };
            &&& lines@.len() == (n + 15) / 16
            &&& forall|k: int|
                0 <= k < lines@.len() ==> shows_line(
                    #[trigger] lines@[k],
                    (k * 16) as nat,
                    data@.subrange(k * 16, if k * 16 + 16 < n {
                        k * 16 + 16
                    } else {
                        n
                    }),
                )
        }),
{
    let n: usize = if data.len() < 128 {
        data.len()
    } else {
        128
    };
    let mut lines: Vec<PreviewLine> = Vec::new();
    let mut start: usize = 0;
    while start < n
        invariant
            n <= data@.len(),
            n <= 128,
            start <= n + 15,
            start == lines@.len() * 16,
            start >= n ==> lines@.len() == (n + 15) / 16,
            start < n ==> lines@.len() == start / 16,
            forall|k: int|
                0 <= k < lines@.len() ==> shows_line(
                    #[trigger] lines@[k],
                    (k * 16) as nat,
                    data@.subrange(k * 16, if k * 16 + 16 < n {
                        k * 16 + 16
                    } else {
                        n as int
                    }),
                ),
        decreases n + 16 - start,
    {
        let end: usize = if start + 16 < n {
            start + 16
        } else {
            n
        };
        let ghost chunk = data@.subrange(start as int, end as int);
        let mut offset: Vec<char> = Vec::new();
        let o = start as u32;
        push_hex_byte(&mut offset, ((o / 0x1000000) % 256) as u8);
        push_hex_byte(&mut offset, ((o / 0x10000) % 256) as u8);
        push_hex_byte(&mut offset, ((o / 0x100) % 256) as u8);
        push_hex_byte(&mut offset, (o % 256) as u8);
        assert(offset@ =~= hex_offset(start as nat));
        let mut hex: Vec<char> = Vec::new();
        let mut ascii: Vec<char> = Vec::new();
        let mut i: usize = start;
        while i < end
            invariant
                start <= i <= end <= n <= data@.len(),
                chunk == data@.subrange(start as int, end as int),
                hex@ == spaced_hex(chunk.take(i - start)),
                ascii@ == chunk.take(i - start).map_values(|b: u8| preview_char(b)),
            decreases end - i,
        {
            let ghost before = hex@;
            let b = data[i];
            if i > start {
                push_str(&mut hex, " ");
            }
            push_hex_byte(&mut hex, b);
            let c = if (0x21 <= b && b <= 0x7e) || b == 0x20 {
                b as char
            } else {
                '·'
            };
            ascii.push(c);
            proof {
                let t = chunk.take(i + 1 - start);
                assert(t.drop_last() =~= chunk.take(i - start));
                assert(t.last() == b);
                if i == start {
                    assert(chunk.take(0) =~= Seq::<u8>::empty());
                    assert(hex@ =~= hex_byte(t[0]));
                } else {
                    assert(hex@ =~= before + " "@ + hex_byte(t.last()));
                }
                assert(ascii@ =~= t.map_values(|b: u8| preview_char(b)));
            }
            i = i + 1;
        }
        assert(chunk.take(end - start) =~= chunk);
        let ghost k = lines@.len() as int;
        lines.push(PreviewLine { offset: string_of_all(&offset), bytes: string_of_all(&hex), ascii: string_of_all(&ascii) });
        assert(k * 16 == start);
        start = start + 16;
    }
    lines
}

} // verus!
