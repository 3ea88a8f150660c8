//! Environment-variable contract and its safety rules.
//!
//! The reserved / protected / sensitive / permission rules are computed here,
//! once; front ends receive their results and never re-implement them.

use crate::text::{
    chars_of, contains_chars, contains_seq, dec_digits, dec_string, eq_ignore_ascii_case,
    eq_ignore_case, hex16, hex16_string, lower_seq, string_of, string_of_range, string_push,
    to_ascii_lower, to_ascii_upper, upper_seq,
};
use vstd::prelude::*;
use vstd::string::*;

verus! {

/// Registry value types, by their numeric code.
pub const REG_NONE: u32 = 0;
pub const REG_SZ: u32 = 1;
pub const REG_EXPAND_SZ: u32 = 2;
pub const REG_BINARY: u32 = 3;
pub const REG_DWORD: u32 = 4;
pub const REG_MULTI_SZ: u32 = 7;
pub const REG_QWORD: u32 = 11;

/// Truncation limit of a preview, in characters.
pub const PREVIEW_MAX_CHARS: usize = 256;

#[derive(Debug, Clone, Copy, PartialEq, Eq, Structural)]
pub enum EnvValueKind {
    /// `REG_SZ`: no variable expansion.
    String,
    /// `REG_EXPAND_SZ`: `%VAR%` is expanded by the system.
    ExpandString,
    /// Any other registry type; read-only.
    Unsupported,
}

pub open spec fn kind_of(vtype: u32) -> EnvValueKind {
    if vtype == REG_SZ {
        EnvValueKind::String
    } else if vtype == REG_EXPAND_SZ {
        EnvValueKind::ExpandString
    } else {
        EnvValueKind::Unsupported
    }
}

pub open spec fn kind_writable(k: EnvValueKind) -> bool {
    k != EnvValueKind::Unsupported
}

impl EnvValueKind {
    /// Maps a registry value type code to its kind.
    pub fn from_reg_type(vtype: u32) -> (r: Self)
        ensures
            r == kind_of(vtype),
    {
        if vtype == REG_SZ {
            EnvValueKind::String
        } else if vtype == REG_EXPAND_SZ {
            EnvValueKind::ExpandString
        } else {
            EnvValueKind::Unsupported
        }
    }

    /// Only `String` and `ExpandString` can be written.
    pub fn is_writable(self) -> (r: bool)
        ensures
            r == kind_writable(self),
    {
        !matches!(self, EnvValueKind::Unsupported)
    }
}

#[derive(Debug, Clone, Copy, PartialEq, Eq, Structural)]
pub enum EnvHive {
    System,
    User,
}

/// Listing metadata of one variable; by contract it carries no value.
#[derive(Debug, Clone, PartialEq, Eq)]
pub struct EnvVarMeta {
    /// The name as stored, case preserved.
    pub name: String,
    pub kind: EnvValueKind,
    pub hive: EnvHive,
    pub can_edit: bool,
    pub can_delete: bool,
    pub sensitive: bool,
    /// Safe display summary; present only for writable, non-sensitive values.
    pub preview: Option<String>,
    /// Change-detection digest of name, type and value.
    pub revision: String,
}

/// Spec view of a listing entry.
pub struct MetaView {
    pub name: Seq<char>,
    pub kind: EnvValueKind,
    pub hive: EnvHive,
    pub can_edit: bool,
    pub can_delete: bool,
    pub sensitive: bool,
    pub preview: Option<Seq<char>>,
    pub revision: Seq<char>,
}

pub open spec fn opt_view(o: Option<String>) -> Option<Seq<char>> {
    match o {
        Some(s) => Some(s@),
        None => None,
    }
}

impl View for EnvVarMeta {
    type V = MetaView;

    open spec fn view(&self) -> MetaView {
        MetaView {
            name: self.name@,
            kind: self.kind,
            hive: self.hive,
            can_edit: self.can_edit,
            can_delete: self.can_delete,
            sensitive: self.sensitive,
            preview: opt_view(self.preview),
            revision: self.revision@,
        }
    }
}

/// The metadata of both hives.
#[derive(Debug, Clone, PartialEq, Eq, Default)]
pub struct EnvVarSnapshot {
    pub system: Vec<EnvVarMeta>,
    pub user: Vec<EnvVarMeta>,
    /// When the listing was taken, in milliseconds since the Unix epoch (0
    /// when the clock reads before it). The two hives are read one after the
    /// other, not atomically.
    pub captured_at: u64,
}

/// The plain value of one variable together with its revision at read time.
#[derive(Debug, Clone, PartialEq, Eq)]
pub struct RevealedValue {
    pub value: String,
    pub revision: String,
}

// ───────────────────────── name rules ─────────────────────────

pub open spec fn reserved_names() -> Seq<Seq<char>> {
    seq!["Path"@]
}

pub open spec fn protected_names() -> Seq<Seq<char>> {
    seq![
        "windir"@,
        "ComSpec"@,
        "PATHEXT"@,
        "OS"@,
        "PROCESSOR_ARCHITECTURE"@,
        "PROCESSOR_IDENTIFIER"@,
        "PROCESSOR_LEVEL"@,
        "PROCESSOR_REVISION"@,
        "TEMP"@,
        "TMP"@,
        "USERNAME"@,
        "USERPROFILE"@,
        "NUMBER_OF_PROCESSORS"@,
        "SystemRoot"@,
        "SystemDrive"@,
    ]
}

pub open spec fn sensitive_keywords() -> Seq<Seq<char>> {
    seq!["TOKEN"@, "KEY"@, "SECRET"@, "PASSWORD"@, "PASSWD"@, "CREDENTIAL"@, "API"@]
}

pub open spec fn matches_any_spec(name: Seq<char>, candidates: Seq<Seq<char>>) -> bool {
    exists|i: int| 0 <= i < candidates.len() && eq_ignore_case(name, #[trigger] candidates[i])
}

pub open spec fn is_reserved_spec(name: Seq<char>) -> bool {
    matches_any_spec(name, reserved_names())
}

pub open spec fn is_protected_spec(name: Seq<char>) -> bool {
    matches_any_spec(name, protected_names())
}

pub open spec fn is_sensitive_spec(name: Seq<char>) -> bool {
    exists|i: int|
        0 <= i < sensitive_keywords().len() && contains_seq(
            upper_seq(name),
            #[trigger] sensitive_keywords()[i],
        )
}

fn reserved_list() -> (r: Vec<&'static str>)
    ensures
        r@.map_values(|s: &str| s@) == reserved_names(),
{
    let v = vec!["Path"];
    assert(v@.map_values(|s: &str| s@) =~= reserved_names());
    v
}

fn protected_list() -> (r: Vec<&'static str>)
    ensures
        r@.map_values(|s: &str| s@) == protected_names(),
{
    let v = vec![
        "windir",
        "ComSpec",
        "PATHEXT",
        "OS",
        "PROCESSOR_ARCHITECTURE",
        "PROCESSOR_IDENTIFIER",
        "PROCESSOR_LEVEL",
        "PROCESSOR_REVISION",
        "TEMP",
        "TMP",
        "USERNAME",
        "USERPROFILE",
        "NUMBER_OF_PROCESSORS",
        "SystemRoot",
        "SystemDrive",
    ];
    assert(v@.map_values(|s: &str| s@) =~= protected_names());
    v
}

fn sensitive_list() -> (r: Vec<&'static str>)
    ensures
        r@.map_values(|s: &str| s@) == sensitive_keywords(),
{
    let v = vec!["TOKEN", "KEY", "SECRET", "PASSWORD", "PASSWD", "CREDENTIAL", "API"];
    assert(v@.map_values(|s: &str| s@) =~= sensitive_keywords());
    v
}

/// Whether `name` equals one of `candidates`, ignoring ASCII case.
fn matches_any(name: &str, candidates: &Vec<&str>) -> (r: bool)
    ensures
        r == matches_any_spec(name@, candidates@.map_values(|s: &str| s@)),
{
    let ghost cs = candidates@.map_values(|s: &str| s@);
    let mut i: usize = 0;
    while i < candidates.len()
        invariant
            0 <= i <= candidates.len(),
            cs == candidates@.map_values(|s: &str| s@),
            forall|k: int| 0 <= k < i ==> !eq_ignore_case(name@, #[trigger] cs[k]),
        decreases candidates.len() - i,
    {
        if eq_ignore_ascii_case(name, candidates[i]) {
            assert(eq_ignore_case(name@, cs[i as int]));
            return true;
        }
        i = i + 1;
    }
    false
}

/// Reserved names (`Path`, any case) belong to the dedicated PATH route and
/// are excluded from the generic variable route altogether.
pub fn is_reserved(name: &str) -> (r: bool)
    ensures
        r == is_reserved_spec(name@),
{
    matches_any(name, &reserved_list())
}

/// Protected names (any case) can be neither edited nor deleted.
pub fn is_protected(name: &str) -> (r: bool)
    ensures
        r == is_protected_spec(name@),
{
    matches_any(name, &protected_list())
}

/// Sensitive names: the upper-cased name contains one of the keywords.
/// This is a name heuristic, not a guarantee about the value.
pub fn is_sensitive(name: &str) -> (r: bool)
    ensures
        r == is_sensitive_spec(name@),
{
    let upper = to_ascii_upper(name);
    let kws = sensitive_list();
    let ghost ks = kws@.map_values(|s: &str| s@);
    let mut i: usize = 0;
    while i < kws.len()
        invariant
            0 <= i <= kws.len(),
            upper@ == upper_seq(name@),
            ks == kws@.map_values(|s: &str| s@),
            ks == sensitive_keywords(),
            forall|k: int| 0 <= k < i ==> !contains_seq(upper_seq(name@), #[trigger] ks[k]),
        decreases kws.len() - i,
    {
        let kw = chars_of(kws[i]);
        if contains_chars(&upper, &kw) {
            assert(contains_seq(upper_seq(name@), ks[i as int]));
            return true;
        }
        i = i + 1;
    }
    false
}

// ───────────────────────── revision ─────────────────────────

pub open spec fn fnv_offset() -> u64 {
    0xcbf2_9ce4_8422_2325u64
}

pub open spec fn fnv_prime() -> u64 {
    0x0000_0100_0000_01b3u64
}

/// FNV-1a over a byte sequence (64-bit, wrapping).
pub open spec fn fnv1a(bytes: Seq<u8>) -> u64
    decreases bytes.len(),
{
    if bytes.len() == 0 {
        fnv_offset()
    } else {
        let h = fnv1a(bytes.drop_last()) ^ (bytes.last() as u64);
        ((h as nat * fnv_prime() as nat) % 0x1_0000_0000_0000_0000nat) as u64
    }
}

/// FNV-1a of the UTF-8 encoding of a string; a change-detection digest, not a
/// tamper-proof one.
fn fnv1a_64(input: &str) -> (r: u64)
    ensures
        r == fnv1a(input.spec_bytes()),
{
    let bytes = input.as_bytes();
    let mut hash: u64 = 0xcbf2_9ce4_8422_2325u64;
    let mut i: usize = 0;
    while i < bytes.len()
        invariant
            0 <= i <= bytes@.len(),
            bytes@ == input.spec_bytes(),
            hash == fnv1a(bytes@.take(i as int)),
        decreases bytes@.len() - i,
    {
        assert(bytes@.take(i + 1).drop_last() == bytes@.take(i as int));
        hash = hash ^ (bytes[i] as u64);
        hash = hash.wrapping_mul(0x0000_0100_0000_01b3u64);
        i = i + 1;
    }
    assert(bytes@.take(bytes@.len() as int) == bytes@);
    hash
}

/// What the revision digests: lower-cased name, type code and value, joined
/// by U+0001 so that no value can imitate a different split.
pub open spec fn revision_material(name: Seq<char>, vtype: u32, value: Seq<char>) -> Seq<char> {
    lower_seq(name) + seq!['\u{1}'] + dec_digits(vtype as nat) + seq!['\u{1}'] + value
}

/// The revision: 16 lower-case hex digits of the digest of the material.
pub open spec fn revision_spec(name: Seq<char>, vtype: u32, value: Seq<char>) -> Seq<char> {
    hex16(fnv1a(vstd::utf8::encode_utf8(revision_material(name, vtype, value))))
}

/// Computes the concurrency-check digest of a variable. It never contains
/// the value itself: only hexadecimal digits.
pub fn revision_of(name: &str, vtype: u32, value: &str) -> (r: String)
    ensures
        r@ == revision_spec(name@, vtype, value@),
        r@.len() == 16,
{
    let mut material: Vec<char> = to_ascii_lower(name);
    material.push('\u{1}');
    let digits = dec_string(vtype as u64);
    let mut i: usize = 0;
    let ghost base = material@;
    while i < digits.len()
        invariant
            0 <= i <= digits.len(),
            material@ == base + digits@.take(i as int),
        decreases digits.len() - i,
    {
        material.push(digits[i]);
        assert(digits@.take(i + 1) == digits@.take(i as int).push(digits@[i as int]));
        i = i + 1;
    }
    assert(digits@.take(digits.len() as int) == digits@);
    material.push('\u{1}');
    let vs = chars_of(value);
    let ghost base2 = material@;
    let mut j: usize = 0;
    while j < vs.len()
        invariant
            0 <= j <= vs.len(),
            material@ == base2 + vs@.take(j as int),
        decreases vs.len() - j,
    {
        material.push(vs[j]);
        assert(vs@.take(j + 1) == vs@.take(j as int).push(vs@[j as int]));
        j = j + 1;
    }
    assert(vs@.take(vs.len() as int) == vs@);
    assert(material@ =~= revision_material(name@, vtype, value@));
    let s = string_of(&material);
    let h = fnv1a_64(s.as_str());
    let hex = hex16_string(h);
    string_of(&hex)
}

/// Every character of a revision is a lower-case hexadecimal digit.
pub proof fn lemma_revision_is_hex(name: Seq<char>, vtype: u32, value: Seq<char>)
    ensures
        revision_spec(name, vtype, value).len() == 16,
        forall|i: int|
            0 <= i < 16 ==> {
                let c = #[trigger] revision_spec(name, vtype, value)[i];
                ('0' <= c && c <= '9') || ('a' <= c && c <= 'f')
            },
{
    let h = fnv1a(vstd::utf8::encode_utf8(revision_material(name, vtype, value)));
    assert forall|i: int| 0 <= i < 16 implies {
        let c = #[trigger] revision_spec(name, vtype, value)[i];
        ('0' <= c && c <= '9') || ('a' <= c && c <= 'f')
    } by {
        let k = (60 - 4 * i) as u64;
        assert(((h >> k) & 15u64) < 16) by (bit_vector);
    }
}

// ───────────────────────── preview ─────────────────────────

/// A control character in the sense of `char::is_control` (Unicode
/// category Cc: U+0000–U+001F and U+007F–U+009F).
pub open spec fn is_preview_control(c: char) -> bool {
    (c as u32) <= 0x1F || (0x7F <= (c as u32) && (c as u32) <= 0x9F)
}

fn is_control_char(c: char) -> (r: bool)
    ensures
        r == is_preview_control(c),
{
    let u = c as u32;
    u <= 0x1F || (0x7F <= u && u <= 0x9F)
}

/// The value with every control character removed.
pub open spec fn strip_controls(s: Seq<char>) -> Seq<char>
    decreases s.len(),
{
    if s.len() == 0 {
        seq![]
    } else if is_preview_control(s.last()) {
        strip_controls(s.drop_last())
    } else {
        strip_controls(s.drop_last()).push(s.last())
    }
}

/// The display summary of a value: controls removed, `None` when nothing
/// remains, cut to 256 characters plus `…` when longer.
pub open spec fn preview_spec(value: Seq<char>) -> Option<Seq<char>> {
    let s = strip_controls(value);
    if s.len() == 0 {
        None
    } else if s.len() > PREVIEW_MAX_CHARS {
        Some(s.take(PREVIEW_MAX_CHARS as int).push('…'))
    } else {
        Some(s)
    }
}

/// Removing controls keeps only characters of the input, none of them a control.
pub proof fn lemma_strip_controls_clean(s: Seq<char>)
    ensures
        strip_controls(s).len() <= s.len(),
        forall|i: int|
            0 <= i < strip_controls(s).len() ==> !is_preview_control(
                #[trigger] strip_controls(s)[i],
            ),
    decreases s.len(),
{
    if s.len() > 0 {
        lemma_strip_controls_clean(s.drop_last());
    }
}

/// A preview is never empty, never longer than 256 characters plus the
/// ellipsis, and never holds a control character (a line break, a tab, NUL,
/// an escape and the like).
pub proof fn law_preview_is_safe(value: Seq<char>)
    ensures
        preview_spec(value) matches Some(p) ==> {
            &&& 0 < p.len() <= PREVIEW_MAX_CHARS + 1
            &&& forall|i: int| 0 <= i < p.len() ==> !is_preview_control(#[trigger] p[i])
        },
{
    lemma_strip_controls_clean(value);
    let s = strip_controls(value);
    if s.len() > PREVIEW_MAX_CHARS {
        let p = s.take(PREVIEW_MAX_CHARS as int).push('…');
        assert forall|i: int| 0 <= i < p.len() implies !is_preview_control(#[trigger] p[i]) by {
            if i < PREVIEW_MAX_CHARS {
                assert(p[i] == s[i]);
            }
        }
    }
}

/// Sanitizes and truncates a display summary.
pub fn sanitize_preview(value: &str) -> (r: Option<String>)
    ensures
        r matches Some(p) ==> preview_spec(value@) == Some(p@),
        r is None ==> preview_spec(value@) is None,
{
    let cs = chars_of(value);
    let mut kept: Vec<char> = Vec::new();
    let mut i: usize = 0;
    while i < cs.len()
        invariant
            0 <= i <= cs.len(),
            cs@ == value@,
            kept@ == strip_controls(cs@.take(i as int)),
        decreases cs.len() - i,
    {
        assert(cs@.take(i + 1).drop_last() == cs@.take(i as int));
        let c = cs[i];
        if !is_control_char(c) {
            kept.push(c);
        }
        i = i + 1;
    }
    assert(cs@.take(cs.len() as int) == cs@);
    if kept.len() == 0 {
        return None;
    }
    if kept.len() > PREVIEW_MAX_CHARS {
        let mut t = string_of_range(&kept, 0, PREVIEW_MAX_CHARS);
        string_push(&mut t, '…');
        assert(kept@.subrange(0, PREVIEW_MAX_CHARS as int) == kept@.take(PREVIEW_MAX_CHARS as int));
        return Some(t);
    }
    Some(string_of(&kept))
}

// ───────────────────────── capabilities ─────────────────────────

/// `(can_edit, can_delete)` of a variable given the hive's write permission.
pub open spec fn capabilities_spec(writable: bool, name: Seq<char>, kind: EnvValueKind) -> (
    bool,
    bool,
) {
    if is_reserved_spec(name) || is_protected_spec(name) || !kind_writable(kind) {
        (false, false)
    } else {
        (writable, writable)
    }
}

/// Edit/delete permission: reserved, protected and unsupported-type
/// variables are always refused; otherwise both follow the hive's write
/// permission.
pub fn capabilities_for_with(writable: bool, name: &str, kind: EnvValueKind) -> (r: (bool, bool))
    ensures
        r == capabilities_spec(writable, name@, kind),
{
    if is_reserved(name) || is_protected(name) || !kind.is_writable() {
        return (false, false);
    }
    (writable, writable)
}

} // verus!
