//! Decisions and text of the command-line front end: which value channel
//! and which concurrency mode a command uses, how variables are shown, and
//! the PATH list edits. The program around it reads input, calls the
//! registry and prints.

use crate::env_var::{EnvHive, EnvValueKind, EnvVarMeta, EnvVarSnapshot, MetaView};
use crate::path_entry::{entries_view, PathEntry};
use crate::disabled::{disabled_list_spec, enabled_list_spec};
use crate::text::{
    chars_of, concat2, concat3, concat5, copy_string, dec_digits, dec_string, eq_ignore_ascii_case,
    eq_ignore_case, string_of, strings_view, trim_end, trim_end_chars,
};
use vstd::prelude::*;
use vstd::string::*;

verus! {

// ───────────────────────── value channels ─────────────────────────

/// Where the value of `env set` / `env add` comes from; exactly one.
#[derive(Debug, Clone, PartialEq, Eq)]
pub enum ValueSource {
    /// Given on the command line (positional or `--value`).
    Argv(String),
    /// `--stdin`: standard input up to end of file.
    Stdin,
    /// `--value-file <F>`: the whole file.
    File(String),
}

/// How many value channels were given.
pub fn channel_count(argv: Option<&str>, stdin: bool, file: Option<&str>) -> (r: usize)
    ensures
        r == (if argv is Some { 1usize } else { 0usize }) + (if stdin { 1usize } else { 0usize }) + (
        if file is Some { 1usize } else { 0usize }),
{
    let a: usize = if argv.is_some() { 1 } else { 0 };
    let b: usize = if stdin { 1 } else { 0 };
    let c: usize = if file.is_some() { 1 } else { 0 };
    a + b + c
}

pub open spec fn several_channels_message() -> Seq<char> {
    "只能指定一种取值方式：位置参数 / --value / --stdin / --value-file"@
}

pub open spec fn missing_value_message() -> Seq<char> {
    "缺少值：请用位置参数、--value、--stdin 或 --value-file 提供"@
}

/// Picks the one value channel. Two or more channels are refused; none is
/// refused when a value is required and means an empty value otherwise.
pub fn resolve_value(argv: Option<String>, stdin: bool, file: Option<String>, required: bool) -> (r:
    Result<ValueSource, String>)
    ensures
        ({
            let n = (if argv is Some { 1int } else { 0int }) + (if stdin { 1int } else { 0int }) + (
            if file is Some { 1int } else { 0int });
            &&& n > 1 ==> (r matches Err(m) && m@ == several_channels_message())
            &&& n == 0 && required ==> (r matches Err(m) && m@ == missing_value_message())
            &&& n == 0 && !required ==> (r matches Ok(ValueSource::Argv(v)) && v@.len() == 0)
            &&& n == 1 ==> match r {
                Ok(ValueSource::Argv(v)) => argv matches Some(a) && v@ == a@,
                Ok(ValueSource::Stdin) => stdin,
                Ok(ValueSource::File(f)) => file matches Some(x) && f@ == x@,
                Err(_) => false,
            }
        }),
{
    let a: usize = if argv.is_some() { 1 } else { 0 };
    let b: usize = if stdin { 1 } else { 0 };
    let c: usize = if file.is_some() { 1 } else { 0 };
    let count = a + b + c;
    if count > 1 {
        return Err("只能指定一种取值方式：位置参数 / --value / --stdin / --value-file".to_owned());
    }
    if count == 0 {
        if required {
            return Err("缺少值：请用位置参数、--value、--stdin 或 --value-file 提供".to_owned());
        }
        return Ok(ValueSource::Argv(String::new()));
    }
    match argv {
        Some(v) => {
            return Ok(ValueSource::Argv(v));
        },
        None => {},
    }
    if stdin {
        return Ok(ValueSource::Stdin);
    }
    match file {
        Some(f) => Ok(ValueSource::File(f)),
        None => Err("缺少值：请用位置参数、--value、--stdin 或 --value-file 提供".to_owned()),
    }
}

/// The text with one trailing line ending (`\r\n`, `\n` or `\r`) removed.
pub open spec fn strip_newline_spec(s: Seq<char>) -> Seq<char> {
    if s.len() >= 2 && s[s.len() - 2] == '\r' && s[s.len() - 1] == '\n' {
        s.take(s.len() - 2)
    } else if s.len() >= 1 && (s[s.len() - 1] == '\n' || s[s.len() - 1] == '\r') {
        s.take(s.len() - 1)
    } else {
        s
    }
}

/// Removes one trailing line ending, so that `echo value |` gives `value`
/// and a value that itself ends with a newline can still be given.
pub fn strip_trailing_newline(raw: &str) -> (r: String)
    ensures
        r@ == strip_newline_spec(raw@),
{
    let cs = chars_of(raw);
    let n = cs.len();
    if n >= 2 && cs[n - 2] == '\r' && cs[n - 1] == '\n' {
        return crate::text::string_of_range(&cs, 0, n - 2);
    }
    if n >= 1 && (cs[n - 1] == '\n' || cs[n - 1] == '\r') {
        return crate::text::string_of_range(&cs, 0, n - 1);
    }
    string_of(&cs)
}

// ───────────────────────── concurrency mode ─────────────────────────

/// How a write guards against concurrent changes; exactly one.
#[derive(Debug, Clone, PartialEq, Eq)]
pub enum Concurrency {
    /// `--revision <R>`: compare-then-write, as strict as the GUI.
    Revision(String),
    /// `--force`: overwrite without comparing (last writer wins).
    Force,
}

pub fn concurrency_count(revision: Option<&str>, force: bool) -> (r: usize)
    ensures
        r == (if revision is Some { 1usize } else { 0usize }) + (if force { 1usize } else { 0usize }),
{
    let a: usize = if revision.is_some() { 1 } else { 0 };
    let b: usize = if force { 1 } else { 0 };
    a + b
}

/// The concurrency mode: one of `--revision` and `--force` must be given,
/// never both, so that every overwrite is an informed choice.
pub fn resolve_concurrency(revision: Option<String>, force: bool) -> (r: Result<Concurrency, String>)
    ensures
        revision is Some && !force ==> (r matches Ok(Concurrency::Revision(x)) && x@ == revision->0@),
        revision is None && force ==> (r matches Ok(Concurrency::Force)),
        revision is None && !force ==> (r matches Err(m) && m@
            == "需要提供 --revision（并发校验）或 --force（跳过校验）"@),
        revision is Some && force ==> (r matches Err(m) && m@ == "--revision 与 --force 互斥，只能指定一个"@),
{
    match revision {
        Some(r) => {
            if force {
                Err("--revision 与 --force 互斥，只能指定一个".to_owned())
            } else {
                Ok(Concurrency::Revision(r))
            }
        },
        None => {
            if force {
                Ok(Concurrency::Force)
            } else {
                Err("需要提供 --revision（并发校验）或 --force（跳过校验）".to_owned())
            }
        },
    }
}

// ───────────────────────── showing variables ─────────────────────────

pub open spec fn kind_label_spec(kind: EnvValueKind) -> Seq<char> {
    match kind {
        EnvValueKind::String => "string"@,
        EnvValueKind::ExpandString => "expand"@,
        EnvValueKind::Unsupported => "unsupported"@,
    }
}

/// The short label of a value kind.
pub fn kind_label(kind: EnvValueKind) -> (r: &'static str)
    ensures
        r@ == kind_label_spec(kind),
{
    match kind {
        EnvValueKind::String => "string",
        EnvValueKind::ExpandString => "expand",
        EnvValueKind::Unsupported => "unsupported",
    }
}

/// What the PREVIEW column shows: a marker for a sensitive variable (whose
/// value is never shown), the preview, or `-` when there is none.
pub open spec fn render_preview_spec(m: MetaView) -> Seq<char> {
    if m.sensitive {
        "(敏感)"@
    } else {
        match m.preview {
            Some(p) => p,
            None => "-"@,
        }
    }
}

pub fn render_preview(meta: &EnvVarMeta) -> (r: String)
    ensures
        r@ == render_preview_spec(meta@),
{
    if meta.sensitive {
        return "(敏感)".to_owned();
    }
    match &meta.preview {
        Some(p) => p.clone(),
        None => "-".to_owned(),
    }
}

/// What the NAME column shows: the name, marked read-only when it cannot
/// be edited.
pub open spec fn render_name_spec(m: MetaView) -> Seq<char> {
    if m.can_edit {
        m.name
    } else {
        m.name + " (只读)"@
    }
}

pub fn render_name(meta: &EnvVarMeta) -> (r: String)
    ensures
        r@ == render_name_spec(meta@),
{
    if meta.can_edit {
        meta.name.clone()
    } else {
        concat2(meta.name.as_str(), " (只读)")
    }
}

pub open spec fn spaces(n: nat) -> Seq<char> {
    Seq::new(n, |i: int| ' ')
}

/// The text padded with spaces on the right to `w` characters.
pub open spec fn pad_right(s: Seq<char>, w: nat) -> Seq<char> {
    if s.len() < w {
        s + spaces((w - s.len()) as nat)
    } else {
        s
    }
}

/// The widest of `init` and the lengths of `ts`.
pub open spec fn max_len(ts: Seq<Seq<char>>, init: nat) -> nat
    decreases ts.len(),
{
    if ts.len() == 0 {
        init
    } else {
        let m = max_len(ts.drop_last(), init);
        if ts.last().len() > m {
            ts.last().len()
        } else {
            m
        }
    }
}

pub open spec fn table_row(name: Seq<char>, kind: Seq<char>, preview: Seq<char>, name_w: nat, kind_w: nat) -> Seq<
    char,
> {
    pad_right(name, name_w) + "  "@ + pad_right(kind, kind_w) + "  "@ + preview + "\n"@
}

pub open spec fn table_rows(ms: Seq<MetaView>, name_w: nat, kind_w: nat) -> Seq<char>
    decreases ms.len(),
{
    if ms.len() == 0 {
        Seq::empty()
    } else {
        let m = ms.last();
        table_rows(ms.drop_last(), name_w, kind_w) + table_row(
            render_name_spec(m),
            kind_label_spec(m.kind),
            render_preview_spec(m),
            name_w,
            kind_w,
        )
    }
}

/// The variables table: a header and one row per variable, columns padded
/// to their widest cell (at least the header), trailing white space
/// removed; a placeholder for an empty list.
pub open spec fn render_table_spec(ms: Seq<MetaView>) -> Seq<char> {
    if ms.len() == 0 {
        "（无变量）"@
    } else {
        let name_w = max_len(ms.map_values(|m: MetaView| render_name_spec(m)), 4);
        let kind_w = max_len(ms.map_values(|m: MetaView| kind_label_spec(m.kind)), 4);
        trim_end(table_row("NAME"@, "KIND"@, "PREVIEW"@, name_w, kind_w) + table_rows(ms, name_w, kind_w))
    }
}

fn push_padded(out: &mut String, s: &str, w: usize)
    ensures
        final(out)@ == old(out)@ + pad_right(s@, w as nat),
{
    out.append(s);
    let cs = chars_of(s);
    let mut k: usize = cs.len();
    let ghost base = out@;
    if k < w {
        while k < w
            invariant
                cs@ == s@,
                cs@.len() <= k <= w,
                out@ == base + spaces((k - cs@.len()) as nat),
            decreases w - k,
        {
            string_push_space(out);
            assert(spaces((k + 1 - cs@.len()) as nat) =~= spaces((k - cs@.len()) as nat).push(' '));
            k = k + 1;
        }
    } else {
        assert(base + Seq::<char>::empty() =~= base);
    }
}

fn string_push_space(out: &mut String)
    ensures
        final(out)@ == old(out)@.push(' '),
{
    crate::text::string_push(out, ' ');
}

fn push_row(out: &mut String, name: &str, kind: &str, preview: &str, name_w: usize, kind_w: usize)
    ensures
        final(out)@ == old(out)@ + table_row(name@, kind@, preview@, name_w as nat, kind_w as nat),
{
    push_padded(out, name, name_w);
    out.append("  ");
    push_padded(out, kind, kind_w);
    out.append("  ");
    out.append(preview);
    out.append("\n");
}

pub open spec fn metas_views(ms: Seq<EnvVarMeta>) -> Seq<MetaView> {
    ms.map_values(|m: EnvVarMeta| m@)
}

/// Renders the variables table.
pub fn render_table(metas: &Vec<EnvVarMeta>) -> (r: String)
    ensures
        r@ == render_table_spec(metas_views(metas@)),
{
    if metas.len() == 0 {
        return "（无变量）".to_owned();
    }
    let ghost mv = metas_views(metas@);
    let ghost names = mv.map_values(|m: MetaView| render_name_spec(m));
    let ghost kinds = mv.map_values(|m: MetaView| kind_label_spec(m.kind));
    let mut name_w: usize = 4;
    let mut kind_w: usize = 4;
    let mut i: usize = 0;
    assert(names.take(0) =~= Seq::<Seq<char>>::empty());
    assert(kinds.take(0) =~= Seq::<Seq<char>>::empty());
    while i < metas.len()
        invariant
            0 <= i <= metas.len(),
            mv == metas_views(metas@),
            names == mv.map_values(|m: MetaView| render_name_spec(m)),
            kinds == mv.map_values(|m: MetaView| kind_label_spec(m.kind)),
            name_w as nat == max_len(names.take(i as int), 4),
            kind_w as nat == max_len(kinds.take(i as int), 4),
        decreases metas.len() - i,
    {
        assert(names.take(i + 1).drop_last() =~= names.take(i as int));
        assert(kinds.take(i + 1).drop_last() =~= kinds.take(i as int));
        let n = render_name(&metas[i]);
        let nl = chars_of(n.as_str()).len();
        let kl = chars_of(kind_label(metas[i].kind)).len();
        assert(names.take(i + 1).last() == n@);
        assert(kinds.take(i + 1).last() == kind_label_spec(metas@[i as int].kind));
        if nl > name_w {
            name_w = nl;
        }
        if kl > kind_w {
            kind_w = kl;
        }
        i = i + 1;
    }
    assert(names.take(metas.len() as int) =~= names);
    assert(kinds.take(metas.len() as int) =~= kinds);
    let mut out = String::new();
    push_row(&mut out, "NAME", "KIND", "PREVIEW", name_w, kind_w);
    let ghost head = out@;
    let mut j: usize = 0;
    while j < metas.len()
        invariant
            0 <= j <= metas.len(),
            mv == metas_views(metas@),
            out@ == head + table_rows(mv.take(j as int), name_w as nat, kind_w as nat),
        decreases metas.len() - j,
    {
        assert(mv.take(j + 1).drop_last() =~= mv.take(j as int));
        assert(mv.take(j + 1).last() == metas@[j as int]@);
        let n = render_name(&metas[j]);
        let p = render_preview(&metas[j]);
        push_row(&mut out, n.as_str(), kind_label(metas[j].kind), p.as_str(), name_w, kind_w);
        j = j + 1;
    }
    assert(mv.take(metas.len() as int) =~= mv);
    let cs = chars_of(out.as_str());
    let t = trim_end_chars(&cs);
    string_of(&t)
}

// ───────────────────────── hives ─────────────────────────

/// Which hives `list` shows, `(system, user)`: both when neither flag is
/// given, otherwise the flagged ones.
pub fn listed_hives(system: bool, user: bool) -> (r: (bool, bool))
    ensures
        r == (system || !user, user || !system),
{
    (system || !user, user || !system)
}

/// The hive a command works on: the user hive unless `--system` is given.
/// Writes never fall back to the other hive.
pub fn select_hive(system: bool, user: bool) -> (r: EnvHive)
    ensures
        r == (if system { EnvHive::System } else { EnvHive::User }),
{
    if system {
        EnvHive::System
    } else {
        EnvHive::User
    }
}

/// The display label of a hive.
pub fn hive_label(hive: EnvHive) -> (r: &'static str)
    ensures
        r@ == crate::registry::access::hive_label_spec(hive),
{
    crate::registry::access::hive_location(hive).1
}

/// What `env get` prints: the bare value and a newline, so that the output
/// can be used by command substitution.
pub fn format_get_output(value: &str) -> (r: String)
    ensures
        r@ == value@ + "\n"@,
{
    concat2(value, "\n")
}

/// The hint shown when a variable is missing from the hive asked for but
/// the other hive lists it (any ASCII case).
pub open spec fn other_hive_hint_spec(name: Seq<char>, other: EnvHive, listed: Seq<MetaView>) -> Option<Seq<char>> {
    if exists|i: int| 0 <= i < listed.len() && eq_ignore_case(#[trigger] listed[i].name, name) {
        Some("提示："@ + name + " 存在于"@ + crate::registry::access::hive_label_spec(other) + " hive，请加 --system"@)
    } else {
        None
    }
}

pub open spec fn other_hive(current: EnvHive) -> EnvHive {
    match current {
        EnvHive::System => EnvHive::User,
        EnvHive::User => EnvHive::System,
    }
}

/// A read-only hint for `env get`: whether the other hive of the listing
/// holds the name.
pub fn other_hive_hint(name: &str, current: EnvHive, snapshot: &EnvVarSnapshot) -> (r: Option<String>)
    ensures
        opt_string_view(r) == other_hive_hint_spec(
            name@,
            other_hive(current),
            metas_views(
                match current {
                    EnvHive::System => snapshot.user@,
                    EnvHive::User => snapshot.system@,
                },
            ),
        ),
{
    let other = match current {
        EnvHive::System => EnvHive::User,
        EnvHive::User => EnvHive::System,
    };
    let metas = match current {
        EnvHive::System => &snapshot.user,
        EnvHive::User => &snapshot.system,
    };
    let ghost mv = metas_views(metas@);
    assert(other == other_hive(current));
    assert(mv == metas_views(
        match current {
            EnvHive::System => snapshot.user@,
            EnvHive::User => snapshot.system@,
        },
    ));
    let mut i: usize = 0;
    while i < metas.len()
        invariant
            0 <= i <= metas.len(),
            mv == metas_views(metas@),
            other == other_hive(current),
            mv == metas_views(
                match current {
                    EnvHive::System => snapshot.user@,
                    EnvHive::User => snapshot.system@,
                },
            ),
            forall|j: int| 0 <= j < i ==> !eq_ignore_case(#[trigger] mv[j].name, name@),
        decreases metas.len() - i,
    {
        assert(mv[i as int].name == metas@[i as int].name@);
        if eq_ignore_ascii_case(metas[i].name.as_str(), name) {
            assert(eq_ignore_case(mv[i as int].name, name@));
            let label = crate::registry::access::hive_location(other).1;
            let m = concat5("提示：", name, " 存在于", label, " hive，请加 --system");
            assert(other_hive_hint_spec(name@, other, mv) == Some(m@));
            return Some(m);
        }
        i = i + 1;
    }
    None
}

pub open spec fn opt_string_view(o: Option<String>) -> Option<Seq<char>> {
    match o {
        Some(s) => Some(s@),
        None => None,
    }
}

/// `--kind expand` (any ASCII case) means `ExpandString`; anything else
/// `String`.
pub fn parse_kind(raw: &str) -> (r: EnvValueKind)
    ensures
        r == (if eq_ignore_case(raw@, "expand"@) {
            EnvValueKind::ExpandString
        } else {
            EnvValueKind::String
        }),
{
    if eq_ignore_ascii_case(raw, "expand") {
        EnvValueKind::ExpandString
    } else {
        EnvValueKind::String
    }
}

/// A PATH command acts on one hive: `--system` and `--user` together are
/// refused; the user hive is the default.
pub fn ensure_single_target(system: bool, user: bool) -> (r: Result<&'static str, String>)
    ensures
        system && user ==> (r matches Err(m) && m@ == "不能同时指定 --system 和 --user"@),
        !(system && user) ==> (r matches Ok(t) && t@ == (if system { "system"@ } else { "user"@ })),
{
    if system && user {
        return Err("不能同时指定 --system 和 --user".to_owned());
    }
    if system {
        Ok("system")
    } else {
        Ok("user")
    }
}

// ───────────────────────── PATH listing text ─────────────────────────

/// How many entries are disabled.
pub open spec fn disabled_count(es: Seq<(Seq<char>, bool)>) -> nat
    decreases es.len(),
{
    if es.len() == 0 {
        0
    } else {
        disabled_count(es.drop_last()) + (if es.last().1 { 0nat } else { 1nat })
    }
}

/// The line of the `i`-th entry: `  [i] [✓] path` (`✗` when disabled).
pub open spec fn listing_line(i: nat, e: (Seq<char>, bool)) -> Seq<char> {
    "  ["@ + dec_digits(i) + "] ["@ + (if e.1 { "✓"@ } else { "✗"@ }) + "] "@ + e.0 + "\n"@
}

/// The lines of the first `n` entries.
pub open spec fn listing_lines(es: Seq<(Seq<char>, bool)>, n: nat) -> Seq<char>
    decreases n,
{
    if n == 0 || n > es.len() {
        Seq::empty()
    } else {
        listing_lines(es, (n - 1) as nat) + listing_line((n - 1) as nat, es[n - 1])
    }
}

/// The text `list` prints for one hive: nothing for an empty list, else a
/// heading with the count and the disabled count, then one line per entry.
pub open spec fn path_listing_spec(title: Seq<char>, es: Seq<(Seq<char>, bool)>) -> Seq<char> {
    if es.len() == 0 {
        Seq::empty()
    } else {
        "═══ "@ + title + " PATH ("@ + dec_digits(es.len()) + " 条，其中禁用 "@ + dec_digits(
            disabled_count(es),
        ) + " 条) ═══\n"@ + listing_lines(es, es.len())
    }
}

/// Renders the text `list` prints for one hive (`title` names it).
pub fn render_path_listing(title: &str, entries: &Vec<PathEntry>) -> (r: String)
    ensures
        r@ == path_listing_spec(title@, entries_view(entries@)),
{
    let ghost ev = entries_view(entries@);
    if entries.len() == 0 {
        return String::new();
    }
    let mut disabled: usize = 0;
    let mut lines = String::new();
    let mut i: usize = 0;
    while i < entries.len()
        invariant
            0 <= i <= entries.len(),
            ev == entries_view(entries@),
            disabled == disabled_count(ev.take(i as int)),
            disabled <= i,
            lines@ == listing_lines(ev, i as nat),
        decreases entries.len() - i,
    {
        assert(ev.take(i + 1).drop_last() =~= ev.take(i as int));
        assert(ev.take(i + 1).last() == ev[i as int]);
        assert(ev[i as int] == entries@[i as int]@);
        if !entries[i].enabled {
            disabled = disabled + 1;
        }
        let d = dec_string(i as u64);
        let ds = string_of(&d);
        lines.append("  [");
        lines.append(ds.as_str());
        lines.append("] [");
        if entries[i].enabled {
            lines.append("✓");
        } else {
            lines.append("✗");
        }
        lines.append("] ");
        lines.append(entries[i].path.as_str());
        lines.append("\n");
        i = i + 1;
    }
    assert(ev.take(entries.len() as int) =~= ev);
    let n = dec_string(entries.len() as u64);
    let ns = string_of(&n);
    let dd = dec_string(disabled as u64);
    let dds = string_of(&dd);
    let mut out = String::new();
    out.append("═══ ");
    out.append(title);
    out.append(" PATH (");
    out.append(ns.as_str());
    out.append(" 条，其中禁用 ");
    out.append(dds.as_str());
    out.append(" 条) ═══\n");
    out.append(lines.as_str());
    out
}

// ───────────────────────── PATH lists ─────────────────────────

/// The paths of the enabled entries, in order (what the registry holds).
pub fn enabled_paths(entries: &Vec<PathEntry>) -> (r: Vec<String>)
    ensures
        strings_view(r@) == enabled_list_spec(entries_view(entries@)),
{
    let mut out: Vec<String> = Vec::new();
    let mut i: usize = 0;
    while i < entries.len()
        invariant
            0 <= i <= entries.len(),
            strings_view(out@) == enabled_list_spec(entries_view(entries@.take(i as int))),
        decreases entries.len() - i,
    {
        assert(entries_view(entries@.take(i + 1)).drop_last() =~= entries_view(entries@.take(i as int)));
        if entries[i].enabled {
            let p = copy_string(&entries[i].path);
            let ghost before = out@;
            out.push(p);
            assert(strings_view(out@) =~= strings_view(before).push(p@));
        }
        i = i + 1;
    }
    assert(entries@.take(entries.len() as int) =~= entries@);
    out
}

/// The paths of the disabled entries, in order.
pub fn disabled_paths(entries: &Vec<PathEntry>) -> (r: Vec<String>)
    ensures
        strings_view(r@) == disabled_list_spec(entries_view(entries@)),
{
    crate::disabled::disabled_lists(entries)
}

/// The error of a write after the snapshot was applied to the registry but
/// could not be saved; both say that the registry was written.
pub fn sidecar_failure_message(err: &str, pending_ok: bool) -> (r: String)
    ensures
        r@ == (if pending_ok {
            "注册表已写入，但快照保存失败: "@ + err@ + "\n已记录待补写状态，下次运行 PATH 命令会自动补写"@
        } else {
            "注册表已写入，但快照保存失败: "@ + err@ + "\n且待补写状态记录失败，注册表与快照可能不一致，请手工核对"@
        }),
{
    if pending_ok {
        concat3("注册表已写入，但快照保存失败: ", err, "\n已记录待补写状态，下次运行 PATH 命令会自动补写")
    } else {
        concat3("注册表已写入，但快照保存失败: ", err, "\n且待补写状态记录失败，注册表与快照可能不一致，请手工核对")
    }
}

/// The refusal of an index outside the list.
pub open spec fn index_error_message(index: usize, len: usize) -> Seq<char> {
    "索引 "@ + dec_digits(index as nat) + " 超出范围 (共 "@ + dec_digits(len as nat) + " 条)"@
}

pub fn index_error(index: usize, len: usize) -> (r: String)
    ensures
        r@ == index_error_message(index, len),
{
    let a = string_of(&dec_string(index as u64));
    let b = string_of(&dec_string(len as u64));
    concat5("索引 ", a.as_str(), " 超出范围 (共 ", b.as_str(), " 条)")
}

/// An optimistic write goes ahead only if the registry still holds what the
/// command read.
pub fn verify_unchanged(reloaded: &Vec<String>, original: &Vec<String>) -> (r: Result<(), String>)
    ensures
        r is Ok <==> strings_view(reloaded@) == strings_view(original@),
        r matches Err(m) ==> m@ == "注册表已被其他进程修改，请重新执行操作"@,
{
    if reloaded.len() != original.len() {
        assert(strings_view(reloaded@).len() != strings_view(original@).len());
        return Err("注册表已被其他进程修改，请重新执行操作".to_owned());
    }
    let mut i: usize = 0;
    while i < reloaded.len()
        invariant
            0 <= i <= reloaded.len(),
            reloaded@.len() == original@.len(),
            forall|j: int| 0 <= j < i ==> reloaded@[j]@ == original@[j]@,
        decreases reloaded.len() - i,
    {
        if !crate::text::str_eq(reloaded[i].as_str(), original[i].as_str()) {
            assert(strings_view(reloaded@)[i as int] != strings_view(original@)[i as int]);
            return Err("注册表已被其他进程修改，请重新执行操作".to_owned());
        }
        i = i + 1;
    }
    assert(strings_view(reloaded@) =~= strings_view(original@)) by {
        assert forall|j: int| 0 <= j < reloaded@.len() implies strings_view(reloaded@)[j] == strings_view(
            original@,
        )[j] by {
            assert(reloaded@[j]@ == original@[j]@);
        }
    }
    Ok(())
}

/// Where `move` puts an entry: up by `steps` stopping at the top, or down
/// by `steps` stopping at the bottom.
pub open spec fn move_target(index: int, steps: int, len: int, up: bool) -> int {
    if up {
        if index >= steps {
            index - steps
        } else {
            0
        }
    } else if index + steps > len - 1 {
        len - 1
    } else {
        index + steps
    }
}

/// The list with the entry at `from` taken out and put back at `to`.
pub open spec fn moved<A>(s: Seq<A>, from: int, to: int) -> Seq<A> {
    s.remove(from).insert(to, s[from])
}

/// Where a move puts an entry: up by `steps` places, stopping at the top
/// (`index - steps`, or 0 when that would pass it); down by `steps`,
/// stopping at the bottom. The entry lands there, the entries it passes
/// shift by one place toward where it came from, and every other entry
/// keeps its place.
pub proof fn law_move_entry_places<A>(s: Seq<A>, index: int, steps: int, up: bool)
    requires
        0 <= index < s.len(),
        steps >= 0,
    ensures
        ({
            let t = moved(s, index, move_target(index, steps, s.len() as int, up));
            let to = if up {
                if index >= steps { index - steps } else { 0 }
            } else {
                if index + steps >= s.len() - 1 { s.len() - 1 } else { index + steps }
            };
            &&& t.len() == s.len()
            &&& t[to] == s[index]
            &&& forall|j: int| 0 <= j < s.len() && (j < to && j < index || j > to && j > index) ==> t[j] == s[j]
            &&& forall|j: int| to < j <= index ==> t[j] == s[j - 1]
            &&& forall|j: int| index <= j < to ==> t[j] == s[j + 1]
        }),
{
    let to = move_target(index, steps, s.len() as int, up);
    let r = s.remove(index);
    assert(r.len() == s.len() - 1);
    assert(0 <= to <= r.len());
    let t = r.insert(to, s[index]);
    assert forall|j: int| 0 <= j < s.len() && (j < to && j < index || j > to && j > index) implies t[j] == s[j] by {
        if j < to {
            assert(t[j] == r[j]);
            assert(r[j] == s[j]);
        } else {
            assert(t[j] == r[j - 1]);
            assert(r[j - 1] == s[j]);
        }
    }
    assert forall|j: int| to < j <= index implies t[j] == s[j - 1] by {
        assert(t[j] == r[j - 1]);
        assert(r[j - 1] == s[j - 1]);
    }
    assert forall|j: int| index <= j < to implies t[j] == s[j + 1] by {
        assert(t[j] == r[j]);
        assert(r[j] == s[j + 1]);
    }
}

/// Moves one entry up or down; an index outside the list is refused.
pub fn move_entry(list: Vec<PathEntry>, index: usize, steps: usize, up: bool) -> (r: Result<
    Vec<PathEntry>,
    String,
>)
    ensures
        index >= list@.len() ==> (r matches Err(m) && m@ == index_error_message(index, list@.len() as usize)),
        index < list@.len() ==> (r matches Ok(v) && v@ == moved(
            list@,
            index as int,
            move_target(index as int, steps as int, list@.len() as int, up),
        )),
{
    if index >= list.len() {
        return Err(index_error(index, list.len()));
    }
    let end = if up {
        if index >= steps {
            index - steps
        } else {
            0
        }
    } else {
        let max = list.len() - 1;
        if steps > max - index {
            max
        } else {
            index + steps
        }
    };
    let mut list = list;
    let ghost before = list@;
    let removed = list.remove(index);
    list.insert(end, removed);
    Ok(list)
}

/// Removes one entry; returns the list and the removed entry.
pub fn remove_entry(list: Vec<PathEntry>, index: usize) -> (r: Result<(Vec<PathEntry>, PathEntry), String>)
    ensures
        index >= list@.len() ==> (r matches Err(m) && m@ == index_error_message(index, list@.len() as usize)),
        index < list@.len() ==> (r matches Ok(p) && p.0@ == list@.remove(index as int) && p.1 == list@[index as int]),
{
    if index >= list.len() {
        return Err(index_error(index, list.len()));
    }
    let mut list = list;
    let removed = list.remove(index);
    Ok((list, removed))
}

/// Replaces the path of one entry, keeping its flag; returns the list and
/// the old path.
pub fn edit_entry(list: Vec<PathEntry>, index: usize, new_path: &str) -> (r: Result<(Vec<PathEntry>, String), String>)
    ensures
        index >= list@.len() ==> (r matches Err(m) && m@ == index_error_message(index, list@.len() as usize)),
        index < list@.len() ==> (r matches Ok(p) && entries_view(p.0@) == entries_view(list@).update(
            index as int,
            (new_path@, list@[index as int].enabled),
        ) && p.1@ == list@[index as int].path@),
{
    if index >= list.len() {
        return Err(index_error(index, list.len()));
    }
    let mut list = list;
    let old = copy_string(&list[index].path);
    let e = PathEntry { path: new_path.to_owned(), enabled: list[index].enabled };
    let ghost before = list@;
    list.set(index, e);
    assert(entries_view(list@) =~= entries_view(before).update(index as int, (new_path@, before[index as int].enabled)));
    Ok((list, old))
}

/// Enables or disables one entry, leaving every other entry as it was.
pub fn toggle_entry(list: Vec<PathEntry>, index: usize, enable: bool) -> (r: Result<Vec<PathEntry>, String>)
    ensures
        index >= list@.len() ==> (r matches Err(m) && m@ == index_error_message(index, list@.len() as usize)),
        index < list@.len() ==> (r matches Ok(v) && entries_view(v@) == entries_view(list@).update(
            index as int,
            (list@[index as int].path@, enable),
        )),
{
    if index >= list.len() {
        return Err(index_error(index, list.len()));
    }
    let mut list = list;
    let e = PathEntry { path: copy_string(&list[index].path), enabled: enable };
    let ghost before = list@;
    list.set(index, e);
    assert(entries_view(list@) =~= entries_view(before).update(index as int, (before[index as int].path@, enable)));
    Ok(list)
}

/// Appends an enabled entry.
pub fn add_entry(list: Vec<PathEntry>, path: &str) -> (r: Vec<PathEntry>)
    ensures
        entries_view(r@) == entries_view(list@).push((path@, true)),
{
    let mut list = list;
    let e = PathEntry { path: path.to_owned(), enabled: true };
    let ghost before = list@;
    list.push(e);
    assert(entries_view(list@) =~= entries_view(before).push((path@, true)));
    list
}

} // verus!
