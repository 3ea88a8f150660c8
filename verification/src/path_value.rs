//! The registry `Path` value as a list: splitting it, joining it back, and
//! cleaning it of blank, duplicate and missing entries.

use crate::disabled::path_key_spec;
use crate::env_var::{REG_EXPAND_SZ, REG_SZ};
use crate::registry::env_var::{shown_units, MAX_ENV_UNITS};
use crate::text::{
    chars_of, concat3, concat4, contains_char, copy_string, dec_digits, dec_string, string_of,
    strings_view, trim, utf16_count, utf16_len,
};
use vstd::prelude::*;
use vstd::string::*;

verus! {

/// The `;`-separated segments of a text, empty ones included.
pub open spec fn segments(s: Seq<char>) -> Seq<Seq<char>>
    decreases s.len(),
{
    if s.len() == 0 {
        seq![Seq::empty()]
    } else {
        let r = segments(s.drop_last());
        if s.last() == ';' {
            r.push(Seq::empty())
        } else {
            r.update(r.len() - 1, r.last().push(s.last()))
        }
    }
}

proof fn lemma_segments_nonempty(s: Seq<char>)
    ensures
        segments(s).len() >= 1,
    decreases s.len(),
{
    if s.len() > 0 {
        lemma_segments_nonempty(s.drop_last());
    }
}

/// The segments that are not blank, in order.
pub open spec fn non_blank(ss: Seq<Seq<char>>) -> Seq<Seq<char>>
    decreases ss.len(),
{
    if ss.len() == 0 {
        Seq::empty()
    } else if trim(ss.last()).len() == 0 {
        non_blank(ss.drop_last())
    } else {
        non_blank(ss.drop_last()).push(ss.last())
    }
}

/// The entries of a `Path` value: its non-blank `;`-separated segments,
/// each kept as written.
pub open spec fn split_path_spec(value: Seq<char>) -> Seq<Seq<char>> {
    non_blank(segments(value))
}

/// Splits a `Path` value into its entries.
pub fn split_path_value(value: &str) -> (r: Vec<String>)
    ensures
        strings_view(r@) == split_path_spec(value@),
{
    let cs = chars_of(value);
    let mut segs: Vec<Vec<char>> = Vec::new();
    let mut cur: Vec<char> = Vec::new();
    let mut i: usize = 0;
    assert(cs@.take(0) =~= Seq::<char>::empty());
    while i < cs.len()
        invariant
            0 <= i <= cs.len(),
            cs@ == value@,
            segs@.map_values(|v: Vec<char>| v@).push(cur@) == segments(cs@.take(i as int)),
        decreases cs.len() - i,
    {
        let ghost before = segs@.map_values(|v: Vec<char>| v@).push(cur@);
        assert(cs@.take(i + 1).drop_last() =~= cs@.take(i as int));
        assert(cs@.take(i + 1).last() == cs@[i as int]);
        if cs[i] == ';' {
            let done = cur;
            segs.push(done);
            cur = Vec::new();
            assert(segs@.map_values(|v: Vec<char>| v@).push(cur@) =~= before.push(Seq::empty()));
        } else {
            let ghost old_cur = cur@;
            cur.push(cs[i]);
            assert(segs@.map_values(|v: Vec<char>| v@).push(cur@) =~= before.update(
                before.len() - 1,
                old_cur.push(cs@[i as int]),
            ));
        }
        i = i + 1;
    }
    assert(cs@.take(cs.len() as int) =~= value@);
    segs.push(cur);
    let ghost all = segs@.map_values(|v: Vec<char>| v@);
    let mut out: Vec<String> = Vec::new();
    let mut j: usize = 0;
    assert(strings_view(out@) =~= non_blank(all.take(0)));
    while j < segs.len()
        invariant
            0 <= j <= segs.len(),
            all == segs@.map_values(|v: Vec<char>| v@),
            all == segments(value@),
            strings_view(out@) == non_blank(all.take(j as int)),
        decreases segs.len() - j,
    {
        assert(all.take(j + 1).drop_last() =~= all.take(j as int));
        assert(all.take(j + 1).last() == segs@[j as int]@);
        let t = crate::text::trim_chars(&segs[j]);
        if t.len() > 0 {
            let s = string_of(&segs[j]);
            let ghost before = out@;
            out.push(s);
            assert(strings_view(out@) =~= strings_view(before).push(segs@[j as int]@));
        }
        j = j + 1;
    }
    assert(all.take(segs.len() as int) =~= all);
    out
}

/// The entries joined by `;`.
pub open spec fn join_spec(ps: Seq<Seq<char>>) -> Seq<char>
    decreases ps.len(),
{
    if ps.len() == 0 {
        Seq::empty()
    } else if ps.len() == 1 {
        ps[0]
    } else {
        join_spec(ps.drop_last()) + ";"@ + ps.last()
    }
}

/// Joins entries into a `Path` value.
pub fn join_path_value(paths: &Vec<String>) -> (r: String)
    ensures
        r@ == join_spec(strings_view(paths@)),
{
    let ghost sv = strings_view(paths@);
    let mut out = String::new();
    let mut i: usize = 0;
    assert(out@ =~= join_spec(sv.take(0)));
    while i < paths.len()
        invariant
            0 <= i <= paths.len(),
            sv == strings_view(paths@),
            out@ == join_spec(sv.take(i as int)),
        decreases paths.len() - i,
    {
        assert(sv.take(i + 1).drop_last() =~= sv.take(i as int));
        assert(sv.take(i + 1).last() == paths@[i as int]@);
        if i > 0 {
            out.append(";");
        } else {
            assert(sv.take(1) =~= seq![paths@[0]@]);
            assert(out@ =~= Seq::<char>::empty());
        }
        out.append(paths[i].as_str());
        i = i + 1;
    }
    assert(sv.take(paths.len() as int) =~= sv);
    out
}

/// Cleaning: an entry stays when its key is not blank, its directory
/// exists, and no earlier kept entry has the same key; the rest are
/// removed. The result is `(kept, removed)`, both in order.
pub open spec fn clean_spec(ps: Seq<Seq<char>>, exists: Seq<bool>) -> (Seq<Seq<char>>, Seq<Seq<char>>)
    decreases ps.len(),
{
    if ps.len() == 0 {
        (Seq::empty(), Seq::empty())
    } else {
        let r = clean_spec(ps.drop_last(), exists);
        let p = ps.last();
        let k = path_key_spec(p);
        let i = ps.len() - 1;
        if k.len() > 0 && exists[i] && !r.0.map_values(|q: Seq<char>| path_key_spec(q)).contains(k) {
            (r.0.push(p), r.1)
        } else {
            (r.0, r.1.push(p))
        }
    }
}

/// Splits entries into those kept and those removed by a cleaning;
/// `exists[i]` says whether the `i`-th directory exists.
pub fn clean_path_list(paths: &Vec<String>, exists: &Vec<bool>) -> (r: (Vec<String>, Vec<String>))
    requires
        exists@.len() == paths@.len(),
    ensures
        (strings_view(r.0@), strings_view(r.1@)) == clean_spec(strings_view(paths@), exists@),
{
    let ghost sv = strings_view(paths@);
    let mut kept: Vec<String> = Vec::new();
    let mut kept_keys: Vec<String> = Vec::new();
    let mut removed: Vec<String> = Vec::new();
    let mut i: usize = 0;
    assert((strings_view(kept@), strings_view(removed@)) =~= clean_spec(sv.take(0), exists@));
    while i < paths.len()
        invariant
            0 <= i <= paths.len(),
            exists@.len() == paths@.len(),
            sv == strings_view(paths@),
            (strings_view(kept@), strings_view(removed@)) == clean_spec(sv.take(i as int), exists@),
            strings_view(kept_keys@) == strings_view(kept@).map_values(|q: Seq<char>| path_key_spec(q)),
        decreases paths.len() - i,
    {
        assert(sv.take(i + 1).drop_last() =~= sv.take(i as int));
        assert(sv.take(i + 1).last() == paths@[i as int]@);
        let k = crate::disabled::path_key(paths[i].as_str());
        if !k.as_str().is_empty() && exists[i] && !crate::text::contains_string(&kept_keys, k.as_str()) {
            let ghost kb = kept@;
            let ghost kkb = kept_keys@;
            kept.push(copy_string(&paths[i]));
            kept_keys.push(k);
            assert(strings_view(kept@) =~= strings_view(kb).push(paths@[i as int]@));
            assert(strings_view(kept_keys@) =~= strings_view(kkb).push(path_key_spec(paths@[i as int]@)));
            assert(strings_view(kept@).map_values(|q: Seq<char>| path_key_spec(q)) =~= strings_view(kb).map_values(
                |q: Seq<char>| path_key_spec(q),
            ).push(path_key_spec(paths@[i as int]@)));
        } else {
            let ghost rb = removed@;
            removed.push(copy_string(&paths[i]));
            assert(strings_view(removed@) =~= strings_view(rb).push(paths@[i as int]@));
        }
        i = i + 1;
    }
    assert(sv.take(paths.len() as int) =~= sv);
    (kept, removed)
}


proof fn lemma_segments_plain(a: Seq<char>, b: Seq<char>)
    requires
        !b.contains(';'),
    ensures
        segments(a + b) == segments(a).update(segments(a).len() - 1, segments(a).last() + b),
    decreases b.len(),
{
    lemma_segments_nonempty(a);
    if b.len() == 0 {
        assert(a + b =~= a);
        assert(segments(a).last() + b =~= segments(a).last());
        assert(segments(a).update(segments(a).len() - 1, segments(a).last()) =~= segments(a));
    } else {
        let b0 = b.drop_last();
        assert(!b0.contains(';')) by {
            if b0.contains(';') {
                let j = choose|j: int| 0 <= j < b0.len() && b0[j] == ';';
                assert(b[j] == ';');
            }
        }
        lemma_segments_plain(a, b0);
        assert((a + b).drop_last() =~= a + b0);
        assert((a + b).last() == b.last());
        assert(b.last() != ';') by {
            if b.last() == ';' {
                assert(b[b.len() - 1] == ';');
            }
        }
        let r = segments(a + b0);
        assert(r.len() == segments(a).len());
        assert(r.last() == segments(a).last() + b0);
        assert(segments(a).last() + b0 + seq![b.last()] =~= segments(a).last() + b);
        assert(r.last().push(b.last()) =~= segments(a).last() + b);
        assert(r.update(r.len() - 1, r.last().push(b.last())) =~= segments(a).update(
            segments(a).len() - 1,
            segments(a).last() + b,
        ));
    }
}

/// Joining entries then splitting the value gives the entries back, when
/// none is blank and none holds a `;`: what is saved is what is read.
pub proof fn law_join_then_split(ps: Seq<Seq<char>>)
    requires
        forall|i: int| 0 <= i < ps.len() ==> !(#[trigger] ps[i]).contains(';') && trim(ps[i]).len() > 0,
    ensures
        split_path_spec(join_spec(ps)) == ps,
    decreases ps.len(),
{
    lemma_segments_exact(ps);
    lemma_non_blank_keeps(ps);
}

proof fn lemma_segments_exact(ps: Seq<Seq<char>>)
    requires
        forall|i: int| 0 <= i < ps.len() ==> !(#[trigger] ps[i]).contains(';'),
    ensures
        ps.len() > 0 ==> segments(join_spec(ps)) == ps,
    decreases ps.len(),
{
    if ps.len() == 1 {
        let e = Seq::<char>::empty();
        lemma_segments_plain(e, ps[0]);
        assert(e + ps[0] =~= ps[0]);
        assert(segments(e) == seq![e]);
        assert(seq![e].update(0, e + ps[0]) =~= ps);
    } else if ps.len() > 1 {
        let init = ps.drop_last();
        assert forall|i: int| 0 <= i < init.len() implies !(#[trigger] init[i]).contains(';') by {
            assert(init[i] == ps[i]);
        }
        lemma_segments_exact(init);
        let j = join_spec(init);
        let p = ps.last();
        assert(!p.contains(';')) by {
            assert(ps[ps.len() - 1] == p);
        }
        let js = j.push(';');
        assert(j + ";"@ + p =~= js + p) by {
            reveal_strlit(";");
        }
        assert(segments(js) == segments(j).push(Seq::empty())) by {
            assert(js.drop_last() =~= j);
        }
        lemma_segments_plain(js, p);
        let sj = segments(js);
        assert(sj.update(sj.len() - 1, sj.last() + p) =~= init.push(p));
        assert(init.push(p) =~= ps);
    }
}

proof fn lemma_non_blank_keeps(ps: Seq<Seq<char>>)
    requires
        forall|i: int| 0 <= i < ps.len() ==> trim(#[trigger] ps[i]).len() > 0,
    ensures
        non_blank(ps) == ps,
        ps.len() == 0 ==> non_blank(segments(join_spec(ps))) == ps,
    decreases ps.len(),
{
    if ps.len() > 0 {
        let init = ps.drop_last();
        assert forall|i: int| 0 <= i < init.len() implies trim(#[trigger] init[i]).len() > 0 by {
            assert(init[i] == ps[i]);
        }
        lemma_non_blank_keeps(init);
        assert(trim(ps[ps.len() - 1]).len() > 0);
        assert(init.push(ps.last()) =~= ps);
    } else {
        let e = Seq::<char>::empty();
        assert(segments(e) == seq![e]);
        assert(trim(e) =~= e);
        assert(seq![e].drop_last() =~= Seq::<Seq<char>>::empty());
    }
}

/// Whether an entry can stand in a `Path` value: no NUL and no `;`, which
/// would split it in two.
pub open spec fn entry_clean(p: Seq<char>) -> bool {
    !p.contains('\0') && !p.contains(';')
}

/// Index of the first entry that cannot stand in a `Path` value (-1 when
/// there is none).
pub open spec fn first_unclean(ps: Seq<Seq<char>>) -> int
    decreases ps.len(),
{
    if ps.len() == 0 {
        -1
    } else if first_unclean(ps.drop_last()) >= 0 {
        first_unclean(ps.drop_last())
    } else if !entry_clean(ps.last()) {
        ps.len() - 1
    } else {
        -1
    }
}

pub open spec fn unclean_message(p: Seq<char>, label: Seq<char>) -> Seq<char> {
    if p.contains('\0') {
        label + " PATH 条目包含 null 字节: "@ + p
    } else {
        label + " PATH 条目不能包含分号: "@ + p
    }
}

/// Why a list cannot be written as a `Path` value, if it cannot: its first
/// unclean entry, else a joined value over 32767 UTF-16 units.
pub open spec fn path_value_error(ps: Seq<Seq<char>>, label: Seq<char>) -> Option<Seq<char>> {
    let k = first_unclean(ps);
    if k >= 0 {
        Some(unclean_message(ps[k], label))
    } else if utf16_len(join_spec(ps)) > MAX_ENV_UNITS {
        Some(label + " PATH 长度 "@ + dec_digits(shown_units(join_spec(ps))) + " 超出 Windows 限制 32767 字符"@)
    } else {
        None
    }
}

proof fn lemma_first_unclean_sticks(s: Seq<Seq<char>>, k: int, m: int)
    requires
        0 <= k <= m <= s.len(),
        first_unclean(s.take(k)) >= 0,
    ensures
        first_unclean(s.take(m)) == first_unclean(s.take(k)),
    decreases m - k,
{
    if m > k {
        lemma_first_unclean_sticks(s, k, m - 1);
        assert(s.take(m).drop_last() =~= s.take(m - 1));
    }
}

/// Checks the entries and joins them into the `Path` value to write; the
/// error text starts with `label`.
pub fn validate_and_join_paths(paths: &Vec<String>, label: &str) -> (r: Result<String, String>)
    ensures
        match r {
            Ok(v) => path_value_error(strings_view(paths@), label@) is None && v@ == join_spec(
                strings_view(paths@),
            ),
            Err(m) => path_value_error(strings_view(paths@), label@) == Some(m@),
        },
{
    let ghost sv = strings_view(paths@);
    let mut i: usize = 0;
    assert(sv.take(0) =~= Seq::<Seq<char>>::empty());
    while i < paths.len()
        invariant
            0 <= i <= paths.len(),
            sv == strings_view(paths@),
            first_unclean(sv.take(i as int)) == -1,
        decreases paths.len() - i,
    {
        assert(sv.take(i + 1).drop_last() =~= sv.take(i as int));
        assert(sv.take(i + 1).last() == paths@[i as int]@);
        let cs = chars_of(paths[i].as_str());
        let has_nul = contains_char(&cs, '\0');
        let has_semi = contains_char(&cs, ';');
        if has_nul || has_semi {
            proof {
                lemma_first_unclean_sticks(sv, i + 1, sv.len() as int);
                assert(sv.take(sv.len() as int) =~= sv);
            }
            if has_nul {
                return Err(concat3(label, " PATH 条目包含 null 字节: ", paths[i].as_str()));
            } else {
                return Err(concat3(label, " PATH 条目不能包含分号: ", paths[i].as_str()));
            }
        }
        i = i + 1;
    }
    assert(sv.take(paths.len() as int) =~= sv);
    let joined = join_path_value(paths);
    let jc = chars_of(joined.as_str());
    let n = utf16_count(&jc);
    if n > MAX_ENV_UNITS {
        let d = dec_string(n as u64);
        let ds = string_of(&d);
        return Err(concat4(label, " PATH 长度 ", ds.as_str(), " 超出 Windows 限制 32767 字符"));
    }
    Ok(joined)
}

/// The registry type to write a `Path` value with: `REG_SZ` stays `REG_SZ`;
/// anything else, or no value yet, becomes `REG_EXPAND_SZ` so that `%VAR%`
/// entries expand.
pub fn select_path_value_type(existing: Option<u32>) -> (r: u32)
    ensures
        r == (if existing == Some(REG_SZ) { REG_SZ } else { REG_EXPAND_SZ }),
{
    match existing {
        Some(t) => {
            if t == REG_SZ {
                REG_SZ
            } else {
                REG_EXPAND_SZ
            }
        },
        None => REG_EXPAND_SZ,
    }
}

} // verus!
