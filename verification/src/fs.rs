//! Importing and exporting PATH lists as JSON, CSV or plain text.
//!
//! The formats are this project's own: CSV rows `type,path[,enabled]` with
//! an optional header and RFC 4180 quoting, text files with one path per
//! line and `#` comments. JSON documents are decoded by the caller; this
//! module decides what their entries become.

use crate::env_var::EnvHive;
use crate::path_entry::{entries_view, PathEntry};
use crate::text::{
    chars_of, concat3, dec_digits, dec_string, lines, lower_seq, split_lines, str_eq, string_of,
    string_of_range, string_push, strings_view, to_ascii_lower, to_lowercase, trim, trim_chars,
    unicode_lower,
};
use vstd::prelude::*;
use vstd::string::*;

verus! {

/// A view of an import result: system entries, then user entries.
pub type ImportView = (Seq<(Seq<char>, bool)>, Seq<(Seq<char>, bool)>);

// ───────────────────────── sanitizing ─────────────────────────

/// A trimmed path is kept when it is not blank and holds neither NUL nor
/// `;` (the PATH separator).
pub open spec fn path_acceptable(p: Seq<char>) -> bool {
    p.len() > 0 && !p.contains('\0') && !p.contains(';')
}

/// Trims every path and drops the unacceptable ones, keeping each flag.
pub open spec fn sanitize_spec(es: Seq<(Seq<char>, bool)>) -> Seq<(Seq<char>, bool)>
    decreases es.len(),
{
    if es.len() == 0 {
        Seq::empty()
    } else {
        let r = sanitize_spec(es.drop_last());
        let t = trim(es.last().0);
        if path_acceptable(t) {
            r.push((t, es.last().1))
        } else {
            r
        }
    }
}

/// Filters imported entries: trims, then drops blank paths and paths with
/// a NUL or a `;`.
pub fn sanitize_entries(entries: Vec<PathEntry>) -> (r: Vec<PathEntry>)
    ensures
        entries_view(r@) == sanitize_spec(entries_view(entries@)),
{
    let mut out: Vec<PathEntry> = Vec::new();
    let mut i: usize = 0;
    while i < entries.len()
        invariant
            0 <= i <= entries.len(),
            entries_view(out@) == sanitize_spec(entries_view(entries@.take(i as int))),
        decreases entries.len() - i,
    {
        assert(entries_view(entries@.take(i + 1)).drop_last() =~= entries_view(entries@.take(i as int)));
        assert(entries_view(entries@.take(i + 1)).last() == entries@[i as int]@);
        let cs = chars_of(entries[i].path.as_str());
        let t = trim_chars(&cs);
        if t.len() > 0 && !crate::text::contains_char(&t, '\0') && !crate::text::contains_char(&t, ';') {
            let e = PathEntry { path: string_of(&t), enabled: entries[i].enabled };
            let ghost before = out@;
            out.push(e);
            assert(entries_view(out@) =~= entries_view(before).push(e@));
        }
        i = i + 1;
    }
    assert(entries@.take(entries.len() as int) =~= entries@);
    out
}

// ───────────────────────── CSV ─────────────────────────

/// The CSV field scanner from position `i`: inside quotes a doubled quote
/// is one quote and a single quote closes; outside, a quote opens and a
/// comma ends the field. The last field is always emitted.
pub open spec fn csv_scan(
    s: Seq<char>,
    i: int,
    quoted: bool,
    cur: Seq<char>,
    fields: Seq<Seq<char>>,
) -> Seq<Seq<char>>
    decreases s.len() - i,
{
    if i < 0 || i >= s.len() {
        fields.push(cur)
    } else {
        let ch = s[i];
        if quoted {
            if ch == '"' {
                if i + 1 < s.len() && s[i + 1] == '"' {
                    csv_scan(s, i + 2, true, cur.push('"'), fields)
                } else {
                    csv_scan(s, i + 1, false, cur, fields)
                }
            } else {
                csv_scan(s, i + 1, true, cur.push(ch), fields)
            }
        } else if ch == '"' {
            csv_scan(s, i + 1, true, cur, fields)
        } else if ch == ',' {
            csv_scan(s, i + 1, false, Seq::empty(), fields.push(cur))
        } else {
            csv_scan(s, i + 1, false, cur.push(ch), fields)
        }
    }
}

/// The fields of one CSV line.
pub open spec fn csv_fields(line: Seq<char>) -> Seq<Seq<char>> {
    csv_scan(line, 0, false, Seq::empty(), Seq::empty())
}

/// Splits one CSV line into fields (quoted fields may hold commas and
/// doubled quotes).
pub fn parse_csv_line(line: &str) -> (r: Vec<String>)
    ensures
        strings_view(r@) == csv_fields(line@),
{
    let s = chars_of(line);
    let mut fields: Vec<String> = Vec::new();
    let mut cur: Vec<char> = Vec::new();
    let mut quoted = false;
    assert(strings_view(fields@) =~= Seq::<Seq<char>>::empty());
    assert(cur@ =~= Seq::<char>::empty());
    let mut i: usize = 0;
    while i < s.len()
        invariant
            s@ == line@,
            0 <= i <= s.len(),
            csv_scan(s@, i as int, quoted, cur@, strings_view(fields@)) == csv_fields(line@),
        decreases s.len() - i,
    {
        let ch = s[i];
        if quoted {
            if ch == '"' {
                if i + 1 < s.len() && s[i + 1] == '"' {
                    cur.push('"');
                    i = i + 2;
                } else {
                    quoted = false;
                    i = i + 1;
                }
            } else {
                cur.push(ch);
                i = i + 1;
            }
        } else if ch == '"' {
            quoted = true;
            i = i + 1;
        } else if ch == ',' {
            let f = string_of(&cur);
            let ghost before = fields@;
            fields.push(f);
            assert(strings_view(fields@) =~= strings_view(before).push(cur@));
            cur = Vec::new();
            assert(cur@ =~= Seq::<char>::empty());
            i = i + 1;
        } else {
            cur.push(ch);
            i = i + 1;
        }
    }
    let f = string_of(&cur);
    let ghost before = fields@;
    fields.push(f);
    assert(strings_view(fields@) =~= strings_view(before).push(cur@));
    fields
}

/// A CSV import in progress: whether the first non-blank line is still to
/// come, then the system and user entries read so far.
pub type CsvState = (bool, Seq<(Seq<char>, bool)>, Seq<(Seq<char>, bool)>);

/// The line without a leading byte-order mark.
pub open spec fn strip_bom(s: Seq<char>) -> Seq<char> {
    if s.len() > 0 && s[0] == '\u{FEFF}' {
        s.skip(1)
    } else {
        s
    }
}

/// A header row, given its first two fields trimmed and lower-cased.
pub open spec fn lowered_is_header(c0: Seq<char>, c1: Seq<char>) -> bool {
    c0 == "type"@ && c1 == "path"@
}

/// The hive a row belongs to, given its type field trimmed and lower-cased:
/// `system`/`sys` or `user`/`usr`; any other type is skipped.
pub open spec fn lowered_row_hive(ty: Seq<char>) -> Option<EnvHive> {
    if ty == "system"@ || ty == "sys"@ {
        Some(EnvHive::System)
    } else if ty == "user"@ || ty == "usr"@ {
        Some(EnvHive::User)
    } else {
        None
    }
}

/// Whether a row is enabled, given its flag field trimmed and lower-cased:
/// only `false` disables it.
pub open spec fn lowered_flag_enabled(flag: Seq<char>) -> bool {
    flag != "false"@
}

/// A header row: first two fields `type` and `path`, in any case.
pub open spec fn is_csv_header(fields: Seq<Seq<char>>) -> bool {
    fields.len() >= 2 && lowered_is_header(unicode_lower(trim(fields[0])), unicode_lower(trim(fields[1])))
}

/// One data row: `system`/`sys` or `user`/`usr`, the path, and an optional
/// flag that disables the entry only when it reads `false`. Rows of another
/// type, or with fewer than two fields, are skipped.
pub open spec fn csv_record(st: CsvState, t: Seq<char>) -> CsvState {
    let f = csv_fields(t);
    if f.len() >= 2 {
        let entry = (
            trim(f[1]),
            if f.len() >= 3 {
                lowered_flag_enabled(unicode_lower(trim(f[2])))
            } else {
                true
            },
        );
        match lowered_row_hive(unicode_lower(trim(f[0]))) {
            Some(EnvHive::System) => (st.0, st.1.push(entry), st.2),
            Some(EnvHive::User) => (st.0, st.1, st.2.push(entry)),
            None => st,
        }
    } else {
        st
    }
}

/// Whether the first two fields of a row, trimmed and lower-cased, make a
/// header.
pub fn csv_header_lowered(c0: &str, c1: &str) -> (r: bool)
    ensures
        r == lowered_is_header(c0@, c1@),
{
    str_eq(c0, "type") && str_eq(c1, "path")
}

/// The hive of a row from its type field, trimmed and lower-cased.
pub fn csv_row_hive_lowered(ty: &str) -> (r: Option<EnvHive>)
    ensures
        r == lowered_row_hive(ty@),
{
    if str_eq(ty, "system") || str_eq(ty, "sys") {
        Some(EnvHive::System)
    } else if str_eq(ty, "user") || str_eq(ty, "usr") {
        Some(EnvHive::User)
    } else {
        None
    }
}

/// Whether a row is enabled, from its flag field trimmed and lower-cased.
pub fn csv_flag_enabled_lowered(flag: &str) -> (r: bool)
    ensures
        r == lowered_flag_enabled(flag@),
{
    !str_eq(flag, "false")
}

/// One line of a CSV file: blank lines are skipped; the first non-blank
/// line loses a byte-order mark and is dropped if it is a header.
pub open spec fn csv_step(st: CsvState, line: Seq<char>) -> CsvState {
    let t = trim(line);
    if t.len() == 0 {
        st
    } else if st.0 {
        let t2 = strip_bom(t);
        let st2 = (false, st.1, st.2);
        if is_csv_header(csv_fields(t2)) {
            st2
        } else {
            csv_record(st2, t2)
        }
    } else {
        csv_record(st, t)
    }
}

pub open spec fn csv_fold(ls: Seq<Seq<char>>) -> CsvState
    decreases ls.len(),
{
    if ls.len() == 0 {
        (true, Seq::empty(), Seq::empty())
    } else {
        csv_step(csv_fold(ls.drop_last()), ls.last())
    }
}

/// A CSV import: both lists sanitized; an error when neither keeps a path.
pub open spec fn import_csv_spec(content: Seq<char>) -> Result<ImportView, Seq<char>> {
    let st = csv_fold(lines(content));
    let sys = sanitize_spec(st.1);
    let usr = sanitize_spec(st.2);
    if sys.len() == 0 && usr.len() == 0 {
        Err("CSV 文件中未找到有效路径"@)
    } else {
        Ok((sys, usr))
    }
}

fn lower_trimmed(s: &str) -> (r: String)
    ensures
        r@ == unicode_lower(trim(s@)),
{
    let t = crate::text::trim_str(s);
    to_lowercase(t.as_str())
}

fn csv_record_exec(sys: &mut Vec<PathEntry>, usr: &mut Vec<PathEntry>, t: &str)
    ensures
        ({
            let r = csv_record((false, entries_view(old(sys)@), entries_view(old(usr)@)), t@);
            &&& entries_view(final(sys)@) == r.1
            &&& entries_view(final(usr)@) == r.2
        }),
{
    let f = parse_csv_line(t);
    assert(f@.len() == csv_fields(t@).len());
    if f.len() >= 2 {
        assert(f@[0]@ == csv_fields(t@)[0] && f@[1]@ == csv_fields(t@)[1]);
        let path = crate::text::trim_str(f[1].as_str());
        let enabled = if f.len() >= 3 {
            assert(f@[2]@ == csv_fields(t@)[2]);
            let e = lower_trimmed(f[2].as_str());
            csv_flag_enabled_lowered(e.as_str())
        } else {
            true
        };
        let entry = PathEntry { path, enabled };
        let ty = lower_trimmed(f[0].as_str());
        match csv_row_hive_lowered(ty.as_str()) {
            Some(EnvHive::System) => {
                let ghost before = sys@;
                sys.push(entry);
                assert(entries_view(sys@) =~= entries_view(before).push(entry@));
            },
            Some(EnvHive::User) => {
                let ghost before = usr@;
                usr.push(entry);
                assert(entries_view(usr@) =~= entries_view(before).push(entry@));
            },
            None => {},
        }
    }
}

/// Imports a CSV document.
pub fn import_csv(content: &str) -> (r: Result<(Vec<PathEntry>, Vec<PathEntry>), String>)
    ensures
        match r {
            Ok(p) => import_csv_spec(content@) == Ok::<ImportView, Seq<char>>(
                (entries_view(p.0@), entries_view(p.1@)),
            ),
            Err(m) => import_csv_spec(content@) == Err::<ImportView, Seq<char>>(m@),
        },
{
    let cs = chars_of(content);
    let ls = split_lines(&cs);
    let ghost lv = ls@.map_values(|l: Vec<char>| l@);
    let mut sys: Vec<PathEntry> = Vec::new();
    let mut usr: Vec<PathEntry> = Vec::new();
    let mut first = true;
    assert(entries_view(sys@) =~= Seq::<(Seq<char>, bool)>::empty());
    assert(entries_view(usr@) =~= Seq::<(Seq<char>, bool)>::empty());
    let mut i: usize = 0;
    while i < ls.len()
        invariant
            0 <= i <= ls.len(),
            lv == ls@.map_values(|l: Vec<char>| l@),
            lv == lines(content@),
            (first, entries_view(sys@), entries_view(usr@)) == csv_fold(lv.take(i as int)),
        decreases ls.len() - i,
    {
        assert(lv.take(i + 1).drop_last() =~= lv.take(i as int));
        assert(lv.take(i + 1).last() == ls@[i as int]@);
        let t = trim_chars(&ls[i]);
        if t.len() > 0 {
            if first {
                first = false;
                let t2 = if t[0] == '\u{FEFF}' {
                    string_of_range(&t, 1, t.len())
                } else {
                    string_of(&t)
                };
                assert(t2@ == strip_bom(t@));
                let hf = parse_csv_line(t2.as_str());
                let mut header = false;
                if hf.len() >= 2 {
                    let c0 = lower_trimmed(hf[0].as_str());
                    let c1 = lower_trimmed(hf[1].as_str());
                    header = csv_header_lowered(c0.as_str(), c1.as_str());
                }
                assert(header == is_csv_header(csv_fields(t2@))) by {
                    assert(hf@.len() == csv_fields(t2@).len());
                    if hf@.len() >= 2 {
                        assert(hf@[0]@ == csv_fields(t2@)[0]);
                        assert(hf@[1]@ == csv_fields(t2@)[1]);
                    }
                }
                if !header {
                    csv_record_exec(&mut sys, &mut usr, t2.as_str());
                }
            } else {
                let ts = string_of(&t);
                csv_record_exec(&mut sys, &mut usr, ts.as_str());
            }
        }
        i = i + 1;
    }
    assert(lv.take(ls.len() as int) =~= lv);
    let sys = sanitize_entries(sys);
    let usr = sanitize_entries(usr);
    if sys.len() == 0 && usr.len() == 0 {
        return Err("CSV 文件中未找到有效路径".to_owned());
    }
    Ok((sys, usr))
}

// ───────────────────────── plain text ─────────────────────────

/// The enabled entries of a text file: trimmed lines that are neither blank
/// nor `#` comments.
pub open spec fn txt_entries(ls: Seq<Seq<char>>) -> Seq<(Seq<char>, bool)>
    decreases ls.len(),
{
    if ls.len() == 0 {
        Seq::empty()
    } else {
        let r = txt_entries(ls.drop_last());
        let t = trim(ls.last());
        if t.len() > 0 && t[0] != '#' {
            r.push((t, true))
        } else {
            r
        }
    }
}

/// A text import: every path goes to the user list.
pub open spec fn import_txt_spec(content: Seq<char>) -> Result<ImportView, Seq<char>> {
    let es = sanitize_spec(txt_entries(lines(content)));
    if es.len() == 0 {
        Err("TXT 文件中未找到路径"@)
    } else {
        Ok((Seq::empty(), es))
    }
}

/// Imports a text document, one path per line, all as user paths.
pub fn import_txt(content: &str) -> (r: Result<(Vec<PathEntry>, Vec<PathEntry>), String>)
    ensures
        match r {
            Ok(p) => import_txt_spec(content@) == Ok::<ImportView, Seq<char>>(
                (entries_view(p.0@), entries_view(p.1@)),
            ),
            Err(m) => import_txt_spec(content@) == Err::<ImportView, Seq<char>>(m@),
        },
{
    let cs = chars_of(content);
    let ls = split_lines(&cs);
    let ghost lv = ls@.map_values(|l: Vec<char>| l@);
    let mut es: Vec<PathEntry> = Vec::new();
    assert(entries_view(es@) =~= Seq::<(Seq<char>, bool)>::empty());
    let mut i: usize = 0;
    while i < ls.len()
        invariant
            0 <= i <= ls.len(),
            lv == ls@.map_values(|l: Vec<char>| l@),
            lv == lines(content@),
            entries_view(es@) == txt_entries(lv.take(i as int)),
        decreases ls.len() - i,
    {
        assert(lv.take(i + 1).drop_last() =~= lv.take(i as int));
        assert(lv.take(i + 1).last() == ls@[i as int]@);
        let t = trim_chars(&ls[i]);
        if t.len() > 0 && t[0] != '#' {
            let e = PathEntry { path: string_of(&t), enabled: true };
            let ghost before = es@;
            es.push(e);
            assert(entries_view(es@) =~= entries_view(before).push(e@));
        }
        i = i + 1;
    }
    assert(lv.take(ls.len() as int) =~= lv);
    let es = sanitize_entries(es);
    if es.len() == 0 {
        return Err("TXT 文件中未找到路径".to_owned());
    }
    let none: Vec<PathEntry> = Vec::new();
    assert(entries_view(none@) =~= Seq::<(Seq<char>, bool)>::empty());
    Ok((none, es))
}

// ───────────────────────── choosing the format ─────────────────────────

pub open spec fn is_separator(c: char) -> bool {
    c == '/' || c == '\\'
}

/// The path without trailing separators.
pub open spec fn trim_separators(p: Seq<char>) -> Seq<char>
    decreases p.len(),
{
    if p.len() > 0 && is_separator(p.last()) {
        trim_separators(p.drop_last())
    } else {
        p
    }
}

/// Index just after the last separator (0 when there is none).
pub open spec fn name_start(p: Seq<char>) -> int
    decreases p.len(),
{
    if p.len() == 0 {
        0
    } else if is_separator(p.last()) {
        p.len() as int
    } else {
        name_start(p.drop_last())
    }
}

/// Dropping trailing separators never lengthens a path.
pub proof fn lemma_trim_separators_len(p: Seq<char>)
    ensures
        trim_separators(p).len() <= p.len(),
    decreases p.len(),
{
    if p.len() > 0 && is_separator(p.last()) {
        lemma_trim_separators_len(p.drop_last());
    }
}

/// The path up to its final component: trailing separators are dropped, and
/// so is a trailing `.` component (`a.json/.` names `a.json`), as the
/// standard library's path components do.
pub open spec fn final_component_path(p: Seq<char>) -> Seq<char>
    decreases p.len(),
{
    let q = trim_separators(p);
    if q.len() >= 2 && q.last() == '.' && is_separator(q[q.len() - 2]) {
        proof {
            lemma_trim_separators_len(p);
        }
        final_component_path(q.drop_last())
    } else {
        q
    }
}

/// The final component of a path.
pub open spec fn file_name_spec(p: Seq<char>) -> Seq<char> {
    let q = final_component_path(p);
    q.skip(name_start(q))
}

/// Index of the last `.` (-1 when there is none).
pub open spec fn last_dot(n: Seq<char>) -> int
    decreases n.len(),
{
    if n.len() == 0 {
        -1
    } else if n.last() == '.' {
        n.len() - 1
    } else {
        last_dot(n.drop_last())
    }
}

/// The extension of a path, lower-cased (ASCII), empty when there is none:
/// what follows the last `.` of the final component, unless that `.` opens
/// the name.
pub open spec fn extension_spec(p: Seq<char>) -> Seq<char> {
    let n = file_name_spec(p);
    let d = last_dot(n);
    if d <= 0 {
        Seq::empty()
    } else {
        lower_seq(n.skip(d + 1))
    }
}

proof fn lemma_name_start_bounds(p: Seq<char>)
    ensures
        0 <= name_start(p) <= p.len(),
    decreases p.len(),
{
    if p.len() > 0 {
        lemma_name_start_bounds(p.drop_last());
    }
}

proof fn lemma_last_dot_bounds(n: Seq<char>)
    ensures
        -1 <= last_dot(n) < n.len(),
    decreases n.len(),
{
    if n.len() > 0 {
        lemma_last_dot_bounds(n.drop_last());
    }
}

/// Computes `extension_spec`.
pub fn path_extension(path: &str) -> (r: String)
    ensures
        r@ == extension_spec(path@),
{
    let cs = chars_of(path);
    // drop trailing separators and trailing `.` components
    let mut end: usize = cs.len();
    assert(cs@.take(end as int) =~= path@);
    loop
        invariant
            0 <= end <= cs.len(),
            cs@ == path@,
            final_component_path(cs@.take(end as int)) == final_component_path(path@),
        ensures
            final_component_path(cs@.take(end as int)) == cs@.take(end as int),
        decreases end,
    {
        let ghost p = cs@.take(end as int);
        if end > 0 && (cs[end - 1] == '/' || cs[end - 1] == '\\') {
            assert(cs@.take(end - 1) =~= p.drop_last());
            assert(trim_separators(p) == trim_separators(p.drop_last()));
            end = end - 1;
        } else if end >= 2 && cs[end - 1] == '.' && (cs[end - 2] == '/' || cs[end - 2] == '\\') {
            assert(trim_separators(p) == p);
            assert(p[p.len() - 2] == cs@[end - 2]);
            assert(cs@.take(end - 1) =~= p.drop_last());
            end = end - 1;
        } else {
            assert(trim_separators(p) == p);
            break;
        }
    }
    let ghost q = cs@.take(end as int);
    // start of the final component
    let mut start: usize = end;
    while start > 0 && !(cs[start - 1] == '/' || cs[start - 1] == '\\')
        invariant
            0 <= start <= end <= cs.len(),
            cs@ == path@,
            q == cs@.take(end as int),
            name_start(q) == name_start(cs@.take(start as int)),
            forall|j: int| start <= j < end ==> !is_separator(#[trigger] cs@[j]),
        decreases start,
    {
        assert(cs@.take(start - 1) =~= cs@.take(start as int).drop_last());
        start = start - 1;
    }
    proof {
        lemma_name_start_bounds(q);
        if start > 0 {
            assert(cs@.take(start as int).last() == cs@[start - 1]);
        }
        assert(name_start(cs@.take(start as int)) == start);
    }
    let ghost n = q.skip(start as int);
    assert(n =~= cs@.subrange(start as int, end as int));
    // last dot of the component
    let mut d: usize = end;
    while d > start && cs[d - 1] != '.'
        invariant
            start <= d <= end,
            end <= cs.len(),
            cs@ == path@,
            n =~= cs@.subrange(start as int, end as int),
            last_dot(n) == last_dot(cs@.subrange(start as int, d as int)),
        decreases d,
    {
        assert(cs@.subrange(start as int, d - 1) =~= cs@.subrange(start as int, d as int).drop_last());
        d = d - 1;
    }
    proof {
        lemma_last_dot_bounds(n);
        if d > start {
            assert(cs@.subrange(start as int, d as int).last() == '.');
        }
    }
    if d - start <= 1 {
        // no dot, or the dot opens the name
        assert(last_dot(n) <= 0);
        return String::new();
    }
    let ext = string_of_range(&cs, d, end);
    assert(n.skip(d - start) =~= cs@.subrange(d as int, end as int));
    let lo = to_ascii_lower(ext.as_str());
    string_of(&lo)
}

/// An import: the format follows the extension. A JSON document is decoded
/// by the caller, which passes what decoding `content` gave (its entries,
/// or the decoder's message).
pub open spec fn import_paths_spec(
    path: Seq<char>,
    content: Seq<char>,
    json: Result<ImportView, Seq<char>>,
) -> Result<ImportView, Seq<char>> {
    let ext = extension_spec(path);
    if ext == "json"@ {
        match json {
            Ok(v) => Ok((sanitize_spec(v.0), sanitize_spec(v.1))),
            Err(e) => Err("JSON 解析失败: "@ + e),
        }
    } else if ext == "csv"@ {
        import_csv_spec(content)
    } else if ext == "txt"@ {
        import_txt_spec(content)
    } else {
        Err("不支持的格式: ."@ + ext)
    }
}

pub open spec fn import_view(r: Result<(Vec<PathEntry>, Vec<PathEntry>), String>) -> Result<
    ImportView,
    Seq<char>,
> {
    match r {
        Ok(p) => Ok((entries_view(p.0@), entries_view(p.1@))),
        Err(m) => Err(m@),
    }
}

/// Imports a JSON, CSV or text document, chosen by the file's extension.
pub fn import_paths(
    path: &str,
    content: &str,
    json: Result<(Vec<PathEntry>, Vec<PathEntry>), String>,
) -> (r: Result<(Vec<PathEntry>, Vec<PathEntry>), String>)
    ensures
        import_view(r) == import_paths_spec(path@, content@, import_view(json)),
{
    let ext = path_extension(path);
    if str_eq(ext.as_str(), "json") {
        match json {
            Ok(p) => Ok((sanitize_entries(p.0), sanitize_entries(p.1))),
            Err(e) => Err(crate::text::concat2("JSON 解析失败: ", e.as_str())),
        }
    } else if str_eq(ext.as_str(), "csv") {
        import_csv(content)
    } else if str_eq(ext.as_str(), "txt") {
        import_txt(content)
    } else {
        Err(crate::text::concat2("不支持的格式: .", ext.as_str()))
    }
}

/// Only `.json`, `.csv` and `.txt` files may be read for an import.
pub fn check_text_file_extension(path: &str) -> (r: Result<(), String>)
    ensures
        r is Ok <==> (extension_spec(path@) == "json"@ || extension_spec(path@) == "csv"@
            || extension_spec(path@) == "txt"@),
        r matches Err(m) ==> m@ == "不支持的文件类型: ."@ + extension_spec(path@)
            + "（仅允许 .json/.csv/.txt）"@,
{
    let ext = path_extension(path);
    if str_eq(ext.as_str(), "json") || str_eq(ext.as_str(), "csv") || str_eq(ext.as_str(), "txt") {
        Ok(())
    } else {
        Err(concat3("不支持的文件类型: .", ext.as_str(), "（仅允许 .json/.csv/.txt）"))
    }
}

// ───────────────────────── exporting ─────────────────────────

#[derive(Debug, Clone, Copy, PartialEq, Eq, Structural)]
pub enum ExportFormat {
    Json,
    Csv,
    Txt,
}

/// The export format named exactly `json`, `csv` or `txt`.
pub fn parse_export_format(format: &str) -> (r: Result<ExportFormat, String>)
    ensures
        r matches Ok(f) ==> (f == ExportFormat::Json && format@ == "json"@) || (f == ExportFormat::Csv
            && format@ == "csv"@) || (f == ExportFormat::Txt && format@ == "txt"@),
        r matches Err(m) ==> format@ != "json"@ && format@ != "csv"@ && format@ != "txt"@ && m@
            == "不支持的导出格式: "@ + format@,
        (format@ == "json"@ || format@ == "csv"@ || format@ == "txt"@) ==> r is Ok,
{
    if str_eq(format, "json") {
        Ok(ExportFormat::Json)
    } else if str_eq(format, "csv") {
        Ok(ExportFormat::Csv)
    } else if str_eq(format, "txt") {
        Ok(ExportFormat::Txt)
    } else {
        Err(crate::text::concat2("不支持的导出格式: ", format))
    }
}

/// CSV rows `kind,path,true` for each path.
pub open spec fn csv_rows(kind: Seq<char>, ps: Seq<Seq<char>>) -> Seq<char>
    decreases ps.len(),
{
    if ps.len() == 0 {
        Seq::empty()
    } else {
        csv_rows(kind, ps.drop_last()) + kind + ","@ + ps.last() + ",true\n"@
    }
}

/// The CSV export: a header, then the system rows, then the user rows.
pub open spec fn export_csv_spec(sys: Seq<Seq<char>>, usr: Seq<Seq<char>>) -> Seq<char> {
    "type,path,enabled\n"@ + csv_rows("system"@, sys) + csv_rows("user"@, usr)
}

fn append_csv_rows(out: &mut String, kind: &str, ps: &Vec<String>)
    ensures
        final(out)@ == old(out)@ + csv_rows(kind@, strings_view(ps@)),
{
    let mut i: usize = 0;
    while i < ps.len()
        invariant
            0 <= i <= ps.len(),
            out@ == old(out)@ + csv_rows(kind@, strings_view(ps@).take(i as int)),
        decreases ps.len() - i,
    {
        assert(strings_view(ps@).take(i + 1).drop_last() =~= strings_view(ps@).take(i as int));
        assert(strings_view(ps@).take(i + 1).last() == ps@[i as int]@);
        out.append(kind);
        out.append(",");
        out.append(ps[i].as_str());
        out.append(",true\n");
        i = i + 1;
    }
    assert(strings_view(ps@).take(ps.len() as int) =~= strings_view(ps@));
}

/// Exports both lists as CSV; every row is enabled.
pub fn export_csv(sys: &Vec<String>, usr: &Vec<String>) -> (r: String)
    ensures
        r@ == export_csv_spec(strings_view(sys@), strings_view(usr@)),
{
    let mut out = "type,path,enabled\n".to_owned();
    append_csv_rows(&mut out, "system", sys);
    append_csv_rows(&mut out, "user", usr);
    out
}

/// One path per line.
pub open spec fn txt_rows(ps: Seq<Seq<char>>) -> Seq<char>
    decreases ps.len(),
{
    if ps.len() == 0 {
        Seq::empty()
    } else {
        txt_rows(ps.drop_last()) + ps.last() + "\n"@
    }
}

/// A titled section `# <title> (<count>)` followed by its paths; nothing
/// for an empty list.
pub open spec fn txt_section(title: Seq<char>, ps: Seq<Seq<char>>) -> Seq<char> {
    if ps.len() == 0 {
        Seq::empty()
    } else {
        "# "@ + title + " ("@ + dec_digits(ps.len()) + ")\n"@ + txt_rows(ps)
    }
}

/// The text export: the system section, then the user section.
pub open spec fn export_txt_spec(sys: Seq<Seq<char>>, usr: Seq<Seq<char>>) -> Seq<char> {
    txt_section("系统 PATH"@, sys) + txt_section("用户 PATH"@, usr)
}

fn append_txt_section(out: &mut String, title: &str, ps: &Vec<String>)
    ensures
        final(out)@ == old(out)@ + txt_section(title@, strings_view(ps@)),
{
    if ps.len() == 0 {
        assert(old(out)@ + Seq::<char>::empty() =~= old(out)@);
        return;
    }
    out.append("# ");
    out.append(title);
    out.append(" (");
    let d = dec_string(ps.len() as u64);
    let ds = string_of(&d);
    out.append(ds.as_str());
    out.append(")\n");
    let ghost head = out@;
    let mut i: usize = 0;
    while i < ps.len()
        invariant
            0 <= i <= ps.len(),
            out@ == head + txt_rows(strings_view(ps@).take(i as int)),
        decreases ps.len() - i,
    {
        assert(strings_view(ps@).take(i + 1).drop_last() =~= strings_view(ps@).take(i as int));
        assert(strings_view(ps@).take(i + 1).last() == ps@[i as int]@);
        out.append(ps[i].as_str());
        out.append("\n");
        i = i + 1;
    }
    assert(strings_view(ps@).take(ps.len() as int) =~= strings_view(ps@));
}

/// Exports both lists as commented plain text.
pub fn export_txt(sys: &Vec<String>, usr: &Vec<String>) -> (r: String)
    ensures
        r@ == export_txt_spec(strings_view(sys@), strings_view(usr@)),
{
    let mut out = String::new();
    append_txt_section(&mut out, "系统 PATH", sys);
    append_txt_section(&mut out, "用户 PATH", usr);
    out
}


// ───────────────────────── what an import may hold ─────────────────────────

/// Every entry a sanitizing pass keeps is acceptable.
pub proof fn lemma_sanitized_acceptable(es: Seq<(Seq<char>, bool)>)
    ensures
        forall|i: int| 0 <= i < sanitize_spec(es).len() ==> path_acceptable(#[trigger] sanitize_spec(es)[i].0),
        sanitize_spec(es).len() <= es.len(),
    decreases es.len(),
{
    if es.len() > 0 {
        lemma_sanitized_acceptable(es.drop_last());
        let r = sanitize_spec(es.drop_last());
        let s = sanitize_spec(es);
        assert forall|i: int| 0 <= i < s.len() implies path_acceptable(#[trigger] s[i].0) by {
            if i < r.len() {
                assert(s[i] == r[i]);
            }
        }
    }
}

/// Whatever the format, an import never yields a blank path or one with a
/// NUL or a `;`, in either list.
pub proof fn law_imports_are_clean(path: Seq<char>, content: Seq<char>, json: Result<ImportView, Seq<char>>)
    ensures
        import_paths_spec(path, content, json) matches Ok(v) ==> {
            &&& forall|i: int| 0 <= i < v.0.len() ==> path_acceptable(#[trigger] v.0[i].0)
            &&& forall|i: int| 0 <= i < v.1.len() ==> path_acceptable(#[trigger] v.1[i].0)
        },
{
    let st = csv_fold(lines(content));
    lemma_sanitized_acceptable(st.1);
    lemma_sanitized_acceptable(st.2);
    lemma_sanitized_acceptable(txt_entries(lines(content)));
    if json is Ok {
        lemma_sanitized_acceptable(json->Ok_0.0);
        lemma_sanitized_acceptable(json->Ok_0.1);
    }
}

} // verus!
