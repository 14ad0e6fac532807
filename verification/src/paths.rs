//! Unix path text as `std::path` handles it: components for comparison,
//! and the raw text kept for what remains after a prefix and for joining.
//!
//! A path's components are a root (`/`) when it starts with a separator,
//! a current-directory component when a relative path starts with a `.`
//! segment, and its other segments between separators except empty and `.`
//! ones.  Each component is identified by its span in the text.

use vstd::prelude::*;
use crate::text::{chars_of, copy_range, run_len, scan_run, string_of, str_eq, CharClass, lemma_run_len_bound, lemma_run_len, lemma_run_len_stop, lemma_in_run};

verus! {

pub open spec fn is_absolute(p: Seq<char>) -> bool {
    p.len() > 0 && p[0] == '/'
}

/// A relative path whose first segment is `.`.
pub open spec fn starts_with_cur_dir(p: Seq<char>) -> bool {
    !is_absolute(p) && p.len() > 0 && p[0] == '.' && (p.len() == 1 || p[1] == '/')
}

/// The spans `[start, end)` of the maximal runs of non-`/` characters of `s`
/// from position `i` on.
pub open spec fn spans_from(s: Seq<char>, i: int) -> Seq<(int, int)>
    decreases s.len() - i,
{
    if i < 0 || i >= s.len() {
        seq![]
    } else if s[i] == '/' {
        spans_from(s, i + 1)
    } else {
        let e = i + run_len(s.skip(i), CharClass::NotSlash);
        proof {
            lemma_run_len_bound(s.skip(i), CharClass::NotSlash);
            assert(s.skip(i)[0] == s[i]);
        }
        seq![(i, e)] + spans_from(s, e)
    }
}

/// The text of a span.
pub open spec fn span_text(s: Seq<char>, sp: (int, int)) -> Seq<char> {
    s.subrange(sp.0, sp.1)
}

/// The spans whose text is not `.`.
pub open spec fn named_spans(s: Seq<char>, sp: Seq<(int, int)>) -> Seq<(int, int)>
    decreases sp.len(),
{
    if sp.len() == 0 {
        seq![]
    } else {
        let prev = named_spans(s, sp.drop_last());
        if span_text(s, sp.last()) == seq!['.'] {
            prev
        } else {
            prev.push(sp.last())
        }
    }
}

/// The spans of a path's components.
pub open spec fn tokens(s: Seq<char>) -> Seq<(int, int)> {
    let named = named_spans(s, spans_from(s, 0));
    if is_absolute(s) || starts_with_cur_dir(s) {
        seq![(0int, 1int)] + named
    } else {
        named
    }
}

/// The components of a path, as text: `/` for the root, `.` for a leading
/// current directory, else the segment.
pub open spec fn components(s: Seq<char>) -> Seq<Seq<char>> {
    tokens(s).map_values(|sp: (int, int)| span_text(s, sp))
}

/// Whether the components of `base` begin those of `s` (`Path::starts_with`).
pub open spec fn component_prefix(s: Seq<char>, base: Seq<char>) -> bool {
    components(base).len() <= components(s).len() && components(s).take(components(base).len() as int)
        == components(base)
}

/// `Path::strip_prefix(s, base)`: when `base` is a component prefix of `s`,
/// the text of `s` from its first remaining component to the end of its
/// last one (empty if none remains).
pub open spec fn strip_remainder(s: Seq<char>, base: Seq<char>) -> Option<Seq<char>> {
    if component_prefix(s, base) {
        let ts = tokens(s);
        let nb = tokens(base).len();
        if nb >= ts.len() {
            Some(Seq::empty())
        } else {
            Some(s.subrange(ts[nb as int].0, ts.last().1))
        }
    } else {
        None
    }
}

/// `PathBuf::from(base).join(rel)`: an absolute `rel` replaces `base`;
/// otherwise `rel` is appended, after a separator unless `base` is empty or
/// already ends in one.
pub open spec fn push_text(base: Seq<char>, rel: Seq<char>) -> Seq<char> {
    if is_absolute(rel) {
        rel
    } else if base.len() > 0 && base.last() != '/' {
        base + seq!['/'] + rel
    } else {
        base + rel
    }
}

/// Where a root's folder lies once its volume is mounted at `new_mount`:
/// `new_mount` joined with what remains of the folder's path after the last
/// known mount point (the whole path when it does not lie below it).
pub open spec fn relocation_target(selected: Seq<char>, last_mount: Seq<char>, new_mount: Seq<char>) -> Seq<char> {
    let rel = match strip_remainder(selected, last_mount) {
        Some(r) => r,
        None => selected,
    };
    push_text(new_mount, rel)
}

/// The data directory for a working directory: its parent (`Path::parent`)
/// when its last component is `src-tauri` (a development checkout), else itself.
pub open spec fn portable_dir_of(cwd: Seq<char>) -> Seq<char> {
    let ts = tokens(cwd);
    let c = components(cwd);
    if c.len() > 0 && c.last() == "src-tauri"@ {
        cwd.subrange(0, if ts.len() >= 2 { ts[ts.len() - 2].1 } else { 0 })
    } else {
        cwd
    }
}

pub open spec fn spans_view(v: Seq<(usize, usize)>) -> Seq<(int, int)> {
    v.map_values(|p: (usize, usize)| (p.0 as int, p.1 as int))
}

/// Spans lie in `s`, are non-empty, hold no separator and come in order.
pub open spec fn well_placed(s: Seq<char>, sp: Seq<(int, int)>) -> bool {
    &&& forall|k: int| 0 <= k < sp.len() ==> 0 <= #[trigger] sp[k].0 < sp[k].1 <= s.len()
    &&& forall|k: int, t: int| #![trigger sp[k], s[t]] 0 <= k < sp.len() && sp[k].0 <= t < sp[k].1 ==> s[t] != '/'
    &&& forall|k: int, l: int| #![trigger sp[k], sp[l]] 0 <= k < l < sp.len() ==> sp[k].1 <= sp[l].0
}

fn segment_spans(cs: &Vec<char>) -> (res: Vec<(usize, usize)>)
    ensures
        spans_view(res@) == spans_from(cs@, 0),
        well_placed(cs@, spans_view(res@)),
{
    let mut res: Vec<(usize, usize)> = Vec::new();
    let mut pos: usize = 0;
    while pos < cs.len()
        invariant
            pos <= cs.len(),
            spans_from(cs@, 0) == spans_view(res@) + spans_from(cs@, pos as int),
            well_placed(cs@, spans_view(res@)),
            forall|k: int| 0 <= k < res@.len() ==> #[trigger] res@[k].1 <= pos,
        decreases cs.len() - pos,
    {
        if cs[pos] == '/' {
            pos += 1;
        } else {
            let end = scan_run(cs, pos, CharClass::NotSlash);
            proof {
                assert(cs@.skip(pos as int)[0] == cs@[pos as int]);
                lemma_run_len_bound(cs@.skip(pos as int), CharClass::NotSlash);
                assert forall|t: int| pos <= t < end implies cs@[t] != '/' by {
                    crate::text::lemma_in_run(cs@.skip(pos as int), CharClass::NotSlash, t - pos);
                    assert(cs@.skip(pos as int)[t - pos] == cs@[t]);
                }
            }
            let ghost before = res@;
            res.push((pos, end));
            proof {
                assert(spans_view(res@) =~= spans_view(before).push((pos as int, end as int)));
                assert(spans_from(cs@, 0) =~= spans_view(res@) + spans_from(cs@, end as int));
                assert forall|k: int, t: int| #![trigger spans_view(res@)[k], cs@[t]] 0 <= k < spans_view(res@).len() && spans_view(res@)[k].0 <= t
                    < spans_view(res@)[k].1 implies cs@[t] != '/' by {
                    if k < before.len() {
                        assert(spans_view(res@)[k] == spans_view(before)[k]);
                    }
                }
                assert forall|k: int, l: int| #![trigger spans_view(res@)[k], spans_view(res@)[l]] 0 <= k < l < spans_view(res@).len() implies spans_view(
                    res@,
                )[k].1 <= spans_view(res@)[l].0 by {
                    assert(res@[k].1 <= end);
                    if l < before.len() {
                        assert(spans_view(res@)[l] == spans_view(before)[l]);
                        assert(spans_view(res@)[k] == spans_view(before)[k]);
                    } else {
                        assert(res@[k].1 <= pos);
                    }
                }
            }
            pos = end;
        }
    }
    assert(spans_view(res@) + spans_from(cs@, pos as int) =~= spans_view(res@));
    res
}

fn is_dot(cs: &Vec<char>, sp: (usize, usize)) -> (res: bool)
    requires
        sp.0 < sp.1 <= cs.len(),
    ensures
        res == (span_text(cs@, (sp.0 as int, sp.1 as int)) == seq!['.']),
{
    let r = sp.1 - sp.0 == 1 && cs[sp.0] == '.';
    proof {
        let t = span_text(cs@, (sp.0 as int, sp.1 as int));
        assert(t.len() == sp.1 - sp.0);
        assert(t[0] == cs@[sp.0 as int]);
        if t == seq!['.'] {
            assert(seq!['.'][0] == '.');
            assert(t[0] == '.');
        }
        if r {
            assert(t =~= seq!['.']);
        }
    }
    r
}

/// The spans of a path's components (see `tokens`).
fn token_spans(cs: &Vec<char>) -> (res: Vec<(usize, usize)>)
    ensures
        spans_view(res@) == tokens(cs@),
        well_placed_tokens(cs@, spans_view(res@)),
{
    let sp = segment_spans(cs);
    let ghost all = spans_view(sp@);
    let mut named: Vec<(usize, usize)> = Vec::new();
    let mut i: usize = 0;
    while i < sp.len()
        invariant
            all == spans_view(sp@),
            all == spans_from(cs@, 0),
            well_placed(cs@, all),
            i <= sp.len(),
            spans_view(named@) == named_spans(cs@, all.take(i as int)),
            well_placed(cs@, spans_view(named@)),
            forall|k: int| 0 <= k < named@.len() ==> span_text(cs@, #[trigger] spans_view(named@)[k]) != seq!['.'],
            named@.len() > 0 && i < sp.len() ==> named@.last().1 <= sp@[i as int].0,
        decreases sp.len() - i,
    {
        let s = sp[i];
        assert(all[i as int] == (s.0 as int, s.1 as int));
        let dot = is_dot(cs, s);
        let ghost before = named@;
        if !dot {
            named.push(s);
            proof {
                assert(spans_view(named@) =~= spans_view(before).push(all[i as int]));
                assert forall|k: int, l: int| #![trigger spans_view(named@)[k], spans_view(named@)[l]] 0 <= k < l < spans_view(named@).len() implies spans_view(
                    named@,
                )[k].1 <= spans_view(named@)[l].0 by {
                    if l == spans_view(named@).len() - 1 && k < before.len() {
                        assert(spans_view(named@)[k] == spans_view(before)[k]);
                        if k < before.len() - 1 {
                            assert(spans_view(before)[k].1 <= spans_view(before)[before.len() - 1].0);
                        }
                    } else if k < before.len() && l < before.len() {
                        assert(spans_view(named@)[k] == spans_view(before)[k]);
                        assert(spans_view(named@)[l] == spans_view(before)[l]);
                    }
                }
                assert forall|k: int, t: int| #![trigger spans_view(named@)[k], cs@[t]] 0 <= k < spans_view(named@).len() && spans_view(named@)[k].0 <= t
                    < spans_view(named@)[k].1 implies cs@[t] != '/' by {
                    if k < before.len() {
                        assert(spans_view(named@)[k] == spans_view(before)[k]);
                    }
                }
                assert forall|k: int| 0 <= k < named@.len() implies span_text(cs@, #[trigger] spans_view(named@)[k])
                    != seq!['.'] by {
                    if k < before.len() {
                        assert(spans_view(named@)[k] == spans_view(before)[k]);
                    }
                }
            }
        }
        proof {
            let t = all.take(i + 1);
            assert(t.drop_last() =~= all.take(i as int));
            assert(t.last() == all[i as int]);
            assert(spans_view(named@) =~= named_spans(cs@, t));
            if i + 1 < sp.len() && named@.len() > 0 {
                assert(all[i as int].1 <= all[i + 1].0);
                if dot {
                    assert(named@.last().1 <= sp@[i as int].0);
                }
            }
        }
        i += 1;
    }
    assert(all.take(sp.len() as int) =~= all);
    let absolute = cs.len() > 0 && cs[0] == '/';
    let cur = !absolute && cs.len() > 0 && cs[0] == '.' && (cs.len() == 1 || cs[1] == '/');
    if absolute || cur {
        let mut res: Vec<(usize, usize)> = Vec::new();
        res.push((0, 1));
        let mut j: usize = 0;
        while j < named.len()
            invariant
                j <= named.len(),
                res@.len() == j + 1,
                res@[0] == (0usize, 1usize),
                forall|k: int| 0 <= k < j ==> res@[k + 1] == named@[k],
            decreases named.len() - j,
        {
            res.push(named[j]);
            j += 1;
        }
        proof {
            let nv = spans_view(named@);
            assert(spans_view(res@) =~= seq![(0int, 1int)] + nv);
            assert forall|k: int| 0 <= k < nv.len() implies #[trigger] nv[k].0 >= 1 by {
                if nv[k].0 == 0 {
                    if absolute {
                        assert(cs@[0] == '/');
                    } else {
                        if cs.len() > 1 && nv[k].1 > 1 {
                            assert(cs@[1] != '/');
                        }
                        assert(span_text(cs@, nv[k]) =~= seq!['.']);
                    }
                }
            }
        }
        res
    } else {
        named
    }
}

/// Token spans lie in `s`, are non-empty and come in order.
pub open spec fn well_placed_tokens(s: Seq<char>, sp: Seq<(int, int)>) -> bool {
    &&& forall|k: int| 0 <= k < sp.len() ==> 0 <= #[trigger] sp[k].0 < sp[k].1 <= s.len()
    &&& forall|k: int, l: int| #![trigger sp[k], sp[l]] 0 <= k < l < sp.len() ==> sp[k].1 <= sp[l].0
}

} // verus!

verus! {

fn spans_text_eq(a: &Vec<char>, sa: (usize, usize), b: &Vec<char>, sb: (usize, usize)) -> (res: bool)
    requires
        sa.0 <= sa.1 <= a.len(),
        sb.0 <= sb.1 <= b.len(),
    ensures
        res == (span_text(a@, (sa.0 as int, sa.1 as int)) == span_text(b@, (sb.0 as int, sb.1 as int))),
{
    let x = copy_range(a, sa.0, sa.1);
    let y = copy_range(b, sb.0, sb.1);
    crate::text::chars_eq(x.as_slice(), y.as_slice())
}

/// Whether the components of `b` begin those of `a`.
fn tokens_prefix(a: &Vec<char>, ta: &Vec<(usize, usize)>, b: &Vec<char>, tb: &Vec<(usize, usize)>) -> (res: bool)
    requires
        spans_view(ta@) == tokens(a@),
        well_placed_tokens(a@, spans_view(ta@)),
        spans_view(tb@) == tokens(b@),
        well_placed_tokens(b@, spans_view(tb@)),
    ensures
        res == component_prefix(a@, b@),
{
    let ghost ca = components(a@);
    let ghost cb = components(b@);
    if tb.len() > ta.len() {
        return false;
    }
    let mut i: usize = 0;
    while i < tb.len()
        invariant
            tb.len() <= ta.len(),
            i <= tb.len(),
            spans_view(ta@) == tokens(a@),
            well_placed_tokens(a@, spans_view(ta@)),
            spans_view(tb@) == tokens(b@),
            well_placed_tokens(b@, spans_view(tb@)),
            ca == components(a@),
            cb == components(b@),
            forall|j: int| 0 <= j < i ==> ca[j] == cb[j],
        decreases tb.len() - i,
    {
        assert(spans_view(ta@)[i as int] == (ta@[i as int].0 as int, ta@[i as int].1 as int));
        assert(spans_view(tb@)[i as int] == (tb@[i as int].0 as int, tb@[i as int].1 as int));
        if !spans_text_eq(a, ta[i], b, tb[i]) {
            proof {
                if ca.take(cb.len() as int) == cb {
                    assert(ca.take(cb.len() as int)[i as int] == ca[i as int]);
                }
            }
            return false;
        }
        i += 1;
    }
    assert(ca.take(cb.len() as int) =~= cb);
    true
}

/// `PathBuf::from(base).join(rel)` as text (see `push_text`).
pub fn join_path(base: &str, rel: &str) -> (res: String)
    ensures
        res@ == push_text(base@, rel@),
{
    let r = chars_of(rel);
    if r.len() > 0 && r[0] == '/' {
        return crate::text::owned(rel);
    }
    let mut out = chars_of(base);
    if out.len() > 0 && out[out.len() - 1] != '/' {
        out.push('/');
    }
    let ghost head = out@;
    let mut j: usize = 0;
    while j < r.len()
        invariant
            j <= r.len(),
            out@ == head + r@.take(j as int),
        decreases r.len() - j,
    {
        out.push(r[j]);
        assert(out@ =~= head + r@.take(j + 1));
        j += 1;
    }
    assert(r@.take(r.len() as int) =~= r@);
    string_of(out.as_slice())
}

/// The path a relocated root's folder takes (see `relocation_target`).
pub fn relocated_path(selected: &str, last_mount: &str, new_mount: &str) -> (res: String)
    ensures
        res@ == relocation_target(selected@, last_mount@, new_mount@),
{
    let s = chars_of(selected);
    let b = chars_of(last_mount);
    let ts = token_spans(&s);
    let tb = token_spans(&b);
    let rel: String;
    if tokens_prefix(&s, &ts, &b, &tb) {
        proof {
            assert(spans_view(tb@).len() == tb@.len());
        }
        if tb.len() >= ts.len() {
            rel = String::new();
        } else {
            let first = ts[tb.len()];
            let last = ts[ts.len() - 1];
            proof {
                let v = spans_view(ts@);
                assert(v[tb.len() as int] == (first.0 as int, first.1 as int));
                assert(v[ts.len() - 1] == (last.0 as int, last.1 as int));
                if tb.len() < ts.len() - 1 {
                    assert(v[tb.len() as int].1 <= v[ts.len() - 1].0);
                }
            }
            let r = copy_range(&s, first.0, last.1);
            rel = string_of(r.as_slice());
        }
    } else {
        rel = crate::text::owned(selected);
    }
    join_path(new_mount, rel.as_str())
}

/// The data directory for a working directory (see `portable_dir_of`).
pub fn portable_dir(cwd: &str) -> (res: String)
    ensures
        res@ == portable_dir_of(cwd@),
{
    let s = chars_of(cwd);
    let ts = token_spans(&s);
    let ghost v = spans_view(ts@);
    if ts.len() > 0 {
        let last = ts[ts.len() - 1];
        assert(v[ts.len() - 1] == (last.0 as int, last.1 as int));
        let text = copy_range(&s, last.0, last.1);
        let t = string_of(text.as_slice());
        proof {
            assert(components(cwd@).last() == span_text(cwd@, v[ts.len() - 1]));
        }
        if str_eq(t.as_str(), "src-tauri") {
            let end: usize = if ts.len() >= 2 {
                let p = ts[ts.len() - 2];
                assert(v[ts.len() - 2] == (p.0 as int, p.1 as int));
                p.1
            } else {
                0
            };
            let r = copy_range(&s, 0, end);
            return string_of(r.as_slice());
        }
    }
    crate::text::owned(cwd)
}

} // verus!

verus! {

/// Spans moved `o` positions to the right.
pub open spec fn shifted(sp: Seq<(int, int)>, o: int) -> Seq<(int, int)> {
    sp.map_values(|p: (int, int)| (p.0 + o, p.1 + o))
}

/// Whether no run of non-separator characters runs across the end of `x`
/// into `y`.
pub open spec fn boundary(x: Seq<char>, y: Seq<char>) -> bool {
    x.len() == 0 || x.last() == '/' || y.len() == 0 || y[0] == '/'
}

/// Every span found from `i` on lies in `s` after `i`, starts at a
/// non-separator and ends at the end of `s` or at a separator.
proof fn lemma_spans_bounds(s: Seq<char>, i: int)
    requires
        0 <= i,
    ensures
        forall|k: int| #![trigger spans_from(s, i)[k]] 0 <= k < spans_from(s, i).len() ==> {
            let p = spans_from(s, i)[k];
            &&& i <= p.0 < p.1 <= s.len()
            &&& s[p.0] != '/'
            &&& (p.1 == s.len() || s[p.1] == '/')
        },
    decreases s.len() - i,
{
    if i < s.len() {
        if s[i] == '/' {
            lemma_spans_bounds(s, i + 1);
            assert(spans_from(s, i) == spans_from(s, i + 1));
        } else {
            let r = run_len(s.skip(i), CharClass::NotSlash);
            let e = i + r;
            assert(s.skip(i)[0] == s[i]);
            lemma_run_len_bound(s.skip(i), CharClass::NotSlash);
            lemma_run_len_stop(s.skip(i), CharClass::NotSlash);
            if e < s.len() {
                assert(s.skip(i)[r as int] == s[e]);
            }
            lemma_spans_bounds(s, e);
            let sp = spans_from(s, i);
            assert(sp == seq![(i, e)] + spans_from(s, e));
            assert forall|k: int| 0 <= k < sp.len() implies ({
                let p = #[trigger] sp[k];
                &&& i <= p.0 < p.1 <= s.len()
                &&& s[p.0] != '/'
                &&& (p.1 == s.len() || s[p.1] == '/')
            }) by {
                if k > 0 {
                    assert(sp[k] == spans_from(s, e)[k - 1]);
                }
            }
        }
    }
}

/// The spans of `x + y` found from a position inside `y` are those of `y`,
/// moved by the length of `x`.
proof fn lemma_spans_shift(x: Seq<char>, y: Seq<char>, j: int)
    requires
        0 <= j <= y.len(),
    ensures
        spans_from(x + y, x.len() + j) == shifted(spans_from(y, j), x.len() as int),
    decreases y.len() - j,
{
    let c = x + y;
    let i = x.len() + j;
    if j < y.len() {
        assert(c[i] == y[j]);
        if y[j] == '/' {
            lemma_spans_shift(x, y, j + 1);
        } else {
            assert(c.skip(i) =~= y.skip(j));
            let r = run_len(y.skip(j), CharClass::NotSlash);
            assert(y.skip(j)[0] == y[j]);
            lemma_run_len_bound(y.skip(j), CharClass::NotSlash);
            lemma_spans_shift(x, y, j + r);
            assert(spans_from(c, i) == seq![(i, i + r)] + spans_from(c, i + r));
            assert(spans_from(y, j) == seq![(j, j + r)] + spans_from(y, j + r));
            assert(spans_from(c, i) =~= shifted(spans_from(y, j), x.len() as int));
        }
    } else {
        assert(spans_from(c, i) =~= shifted(spans_from(y, j), x.len() as int));
    }
}

/// Where no run crosses the end of `x`, the spans of `x + y` found from a
/// position in `x` are those of `x`, then those found from the start of `y`.
proof fn lemma_spans_split(x: Seq<char>, y: Seq<char>, i: int)
    requires
        boundary(x, y),
        0 <= i <= x.len(),
    ensures
        spans_from(x + y, i) == spans_from(x, i) + spans_from(x + y, x.len() as int),
    decreases x.len() - i,
{
    let c = x + y;
    if i < x.len() {
        assert(c[i] == x[i]);
        if x[i] == '/' {
            lemma_spans_split(x, y, i + 1);
            assert(spans_from(c, i) == spans_from(c, i + 1));
            assert(spans_from(x, i) == spans_from(x, i + 1));
        } else {
            let r = run_len(x.skip(i), CharClass::NotSlash);
            assert(x.skip(i)[0] == x[i]);
            lemma_run_len_bound(x.skip(i), CharClass::NotSlash);
            lemma_run_len_stop(x.skip(i), CharClass::NotSlash);
            assert forall|t: int| 0 <= t < r implies crate::text::in_class(#[trigger] c.skip(i)[t], CharClass::NotSlash) by {
                lemma_in_run(x.skip(i), CharClass::NotSlash, t);
                assert(x.skip(i)[t] == c.skip(i)[t]);
            }
            if i + r < x.len() {
                assert(x.skip(i)[r as int] == c.skip(i)[r as int]);
                assert(!crate::text::in_class(c.skip(i)[r as int], CharClass::NotSlash));
            } else {
                lemma_in_run(x.skip(i), CharClass::NotSlash, r - 1);
                assert(x.last() == x.skip(i)[r - 1]);
                assert(x.last() != '/');
                if y.len() > 0 {
                    assert(y[0] == '/');
                    assert(c.skip(i)[r as int] == y[0]);
                    assert(!crate::text::in_class(c.skip(i)[r as int], CharClass::NotSlash));
                } else {
                    assert(c.skip(i).len() == r);
                }
            }
            lemma_run_len(c.skip(i), CharClass::NotSlash, r as int);
            lemma_spans_split(x, y, i + r);
            assert(spans_from(c, i) == seq![(i, i + r)] + spans_from(c, i + r));
            assert(spans_from(x, i) == seq![(i, i + r)] + spans_from(x, i + r));
            assert(spans_from(c, i) =~= spans_from(x, i) + spans_from(c, x.len() as int));
        }
    } else {
        assert(spans_from(x, i) =~= Seq::<(int, int)>::empty());
        assert(spans_from(c, i) =~= spans_from(x, i) + spans_from(c, x.len() as int));
    }
}

/// The spans found from the start of a span found earlier are the rest of
/// the earlier ones, from that span on.
proof fn lemma_spans_suffix(s: Seq<char>, i: int, m: int)
    requires
        0 <= i,
        0 <= m < spans_from(s, i).len(),
    ensures
        spans_from(s, i).skip(m) == spans_from(s, spans_from(s, i)[m].0),
    decreases s.len() - i,
{
    if i < s.len() {
        if s[i] == '/' {
            lemma_spans_suffix(s, i + 1, m);
        } else {
            let e = i + run_len(s.skip(i), CharClass::NotSlash);
            assert(s.skip(i)[0] == s[i]);
            lemma_run_len_bound(s.skip(i), CharClass::NotSlash);
            let sp = spans_from(s, i);
            assert(sp == seq![(i, e)] + spans_from(s, e));
            if m == 0 {
                assert(sp.skip(0) =~= sp);
            } else {
                lemma_spans_suffix(s, e, m - 1);
                assert(sp.skip(m) =~= spans_from(s, e).skip(m - 1));
                assert(sp[m] == spans_from(s, e)[m - 1]);
            }
        }
    }
}

/// The texts of some spans of `s`.
pub open spec fn texts(s: Seq<char>, sp: Seq<(int, int)>) -> Seq<Seq<char>> {
    sp.map_values(|p: (int, int)| span_text(s, p))
}

/// The texts of all runs of non-separator characters of `s`, in order.
pub open spec fn seg_texts(s: Seq<char>) -> Seq<Seq<char>> {
    texts(s, spans_from(s, 0))
}

/// The texts other than `.`, in order.
pub open spec fn drop_dots(t: Seq<Seq<char>>) -> Seq<Seq<char>>
    decreases t.len(),
{
    if t.len() == 0 {
        seq![]
    } else {
        let prev = drop_dots(t.drop_last());
        if t.last() == seq!['.'] {
            prev
        } else {
            prev.push(t.last())
        }
    }
}

/// The leading component of a path that no segment gives: its root, or a
/// leading current directory.
pub open spec fn lead(s: Seq<char>) -> Seq<Seq<char>> {
    if is_absolute(s) || starts_with_cur_dir(s) {
        seq![s.take(1)]
    } else {
        seq![]
    }
}

proof fn lemma_named_texts(s: Seq<char>, sp: Seq<(int, int)>)
    ensures
        texts(s, named_spans(s, sp)) == drop_dots(texts(s, sp)),
    decreases sp.len(),
{
    if sp.len() > 0 {
        lemma_named_texts(s, sp.drop_last());
        assert(texts(s, sp).drop_last() =~= texts(s, sp.drop_last()));
        assert(texts(s, sp).last() == span_text(s, sp.last()));
        let prev = named_spans(s, sp.drop_last());
        assert(texts(s, prev.push(sp.last())) =~= texts(s, prev).push(span_text(s, sp.last())));
    } else {
        assert(texts(s, named_spans(s, sp)) =~= drop_dots(texts(s, sp)));
    }
}

proof fn lemma_drop_dots_concat(a: Seq<Seq<char>>, b: Seq<Seq<char>>)
    ensures
        drop_dots(a + b) == drop_dots(a) + drop_dots(b),
    decreases b.len(),
{
    if b.len() == 0 {
        assert(a + b =~= a);
        assert(drop_dots(a) + drop_dots(b) =~= drop_dots(a));
    } else {
        lemma_drop_dots_concat(a, b.drop_last());
        assert((a + b).drop_last() =~= a + b.drop_last());
        assert((a + b).last() == b.last());
        let l = b.last();
        assert((drop_dots(a) + drop_dots(b.drop_last())).push(l) =~= drop_dots(a) + drop_dots(b.drop_last()).push(l));
    }
}

proof fn lemma_named_concat(s: Seq<char>, a: Seq<(int, int)>, b: Seq<(int, int)>)
    ensures
        named_spans(s, a + b) == named_spans(s, a) + named_spans(s, b),
    decreases b.len(),
{
    if b.len() == 0 {
        assert(a + b =~= a);
        assert(named_spans(s, a) + named_spans(s, b) =~= named_spans(s, a));
    } else {
        lemma_named_concat(s, a, b.drop_last());
        assert((a + b).drop_last() =~= a + b.drop_last());
        assert((a + b).last() == b.last());
        let l = b.last();
        assert((named_spans(s, a) + named_spans(s, b.drop_last())).push(l) =~= named_spans(s, a) + named_spans(
            s,
            b.drop_last(),
        ).push(l));
    }
}

proof fn lemma_named_not_dot(s: Seq<char>, sp: Seq<(int, int)>)
    ensures
        forall|k: int| 0 <= k < named_spans(s, sp).len() ==> span_text(s, #[trigger] named_spans(s, sp)[k]) != seq!['.'],
    decreases sp.len(),
{
    if sp.len() > 0 {
        lemma_named_not_dot(s, sp.drop_last());
        let prev = named_spans(s, sp.drop_last());
        let n = named_spans(s, sp);
        assert forall|k: int| 0 <= k < n.len() implies span_text(s, #[trigger] n[k]) != seq!['.'] by {
            if k < prev.len() {
                assert(n[k] == prev[k]);
            }
        }
    }
}

/// Where the `j`-th named span stands among all spans.
proof fn lemma_named_index(s: Seq<char>, sp: Seq<(int, int)>, j: int) -> (m: int)
    requires
        0 <= j < named_spans(s, sp).len(),
    ensures
        0 <= m < sp.len(),
        sp[m] == named_spans(s, sp)[j],
        named_spans(s, sp.take(m)).len() == j,
    decreases sp.len(),
{
    let prev = named_spans(s, sp.drop_last());
    if j < prev.len() {
        let m = lemma_named_index(s, sp.drop_last(), j);
        assert(sp.drop_last().take(m) =~= sp.take(m));
        assert(named_spans(s, sp)[j] == prev[j]);
        m
    } else {
        assert(sp.take(sp.len() - 1) =~= sp.drop_last());
        sp.len() - 1
    }
}

proof fn lemma_comps_form(s: Seq<char>)
    ensures
        components(s) == lead(s) + drop_dots(seg_texts(s)),
{
    let named = named_spans(s, spans_from(s, 0));
    lemma_named_texts(s, spans_from(s, 0));
    if is_absolute(s) || starts_with_cur_dir(s) {
        assert(span_text(s, (0int, 1int)) =~= s.take(1));
        assert(components(s) =~= seq![s.take(1)] + texts(s, named));
    } else {
        assert(components(s) =~= texts(s, named));
    }
}

/// Spans of `r`, moved by `o`, have the same texts in `s` when `r` is the
/// piece of `s` from `o` on.
proof fn lemma_texts_shift(s: Seq<char>, o: int, r: Seq<char>, sp: Seq<(int, int)>)
    requires
        0 <= o,
        o + r.len() <= s.len(),
        r == s.subrange(o, o + r.len()),
        forall|k: int| 0 <= k < sp.len() ==> 0 <= #[trigger] sp[k].0 <= sp[k].1 <= r.len(),
    ensures
        texts(s, shifted(sp, o)) == texts(r, sp),
{
    assert forall|k: int| 0 <= k < sp.len() implies #[trigger] texts(s, shifted(sp, o))[k] == texts(r, sp)[k] by {
        let p = sp[k];
        assert(s.subrange(p.0 + o, p.1 + o) =~= r.subrange(p.0, p.1));
    }
    assert(texts(s, shifted(sp, o)) =~= texts(r, sp));
}

/// Where no run crosses the join, the segments of `x + y` are those of `x`
/// followed by those of `y`.
proof fn lemma_seg_concat(x: Seq<char>, y: Seq<char>)
    requires
        boundary(x, y),
    ensures
        seg_texts(x + y) == seg_texts(x) + seg_texts(y),
{
    let c = x + y;
    lemma_spans_split(x, y, 0);
    lemma_spans_shift(x, y, 0);
    lemma_spans_bounds(x, 0);
    lemma_spans_bounds(y, 0);
    let a = spans_from(x, 0);
    let b = spans_from(y, 0);
    assert(spans_from(c, 0) == a + shifted(b, x.len() as int));
    assert(texts(c, a + shifted(b, x.len() as int)) =~= texts(c, a) + texts(c, shifted(b, x.len() as int)));
    assert forall|k: int| 0 <= k < b.len() implies 0 <= #[trigger] b[k].0 <= b[k].1 <= y.len() by {
        assert(b[k] == spans_from(y, 0)[k]);
    }
    assert(y =~= c.subrange(x.len() as int, (x.len() + y.len()) as int));
    lemma_texts_shift(c, x.len() as int, y, b);
    assert(x =~= c.subrange(0, x.len() as int));
    assert(shifted(a, 0) =~= a);
    assert forall|k: int| 0 <= k < a.len() implies 0 <= #[trigger] a[k].0 <= a[k].1 <= x.len() by {
        assert(a[k] == spans_from(x, 0)[k]);
    }
    lemma_texts_shift(c, 0, x, a);
}

proof fn lemma_lead_concat(x: Seq<char>, y: Seq<char>)
    requires
        x.len() > 0,
        boundary(x, y),
    ensures
        lead(x + y) == lead(x),
{
    let c = x + y;
    assert(c[0] == x[0]);
    assert(c.take(1) =~= x.take(1));
    if x.len() >= 2 {
        assert(c[1] == x[1]);
    } else if y.len() > 0 {
        assert(c[1] == y[0]);
    }
}

proof fn lemma_no_segments_empty()
    ensures
        seg_texts(Seq::<char>::empty()) == Seq::<Seq<char>>::empty(),
        seg_texts(seq!['/']) == Seq::<Seq<char>>::empty(),
        components(Seq::<char>::empty()) == Seq::<Seq<char>>::empty(),
{
    assert(spans_from(seq!['/'], 1) =~= Seq::<(int, int)>::empty());
    assert(spans_from(seq!['/'], 0) == spans_from(seq!['/'], 1));
    assert(seg_texts(seq!['/']) =~= Seq::<Seq<char>>::empty());
    assert(seg_texts(Seq::<char>::empty()) =~= Seq::<Seq<char>>::empty());
    assert(tokens(Seq::<char>::empty()) =~= Seq::<(int, int)>::empty());
    assert(components(Seq::<char>::empty()) =~= Seq::<Seq<char>>::empty());
}

/// Joining a relative remainder onto a base appends its components to the
/// base's.
proof fn lemma_push_components(base: Seq<char>, r: Seq<char>)
    requires
        r.len() == 0 || (!is_absolute(r) && lead(r) == Seq::<Seq<char>>::empty()),
    ensures
        components(push_text(base, r)) == components(base) + components(r),
{
    lemma_no_segments_empty();
    lemma_comps_form(base);
    lemma_comps_form(r);
    let slash = seq!['/'];
    if base.len() == 0 {
        assert(push_text(base, r) =~= r);
        assert(components(base) + components(r) =~= components(r));
    } else if r.len() == 0 {
        assert(components(base) + components(r) =~= components(base));
        if base.last() == '/' {
            assert(push_text(base, r) =~= base);
        } else {
            assert(push_text(base, r) =~= base + slash);
            lemma_seg_concat(base, slash);
            lemma_lead_concat(base, slash);
            lemma_comps_form(base + slash);
            assert(seg_texts(base) + seg_texts(slash) =~= seg_texts(base));
        }
    } else {
        let y = if base.last() == '/' { r } else { slash + r };
        assert(push_text(base, r) =~= base + y);
        if base.last() != '/' {
            lemma_seg_concat(slash, r);
            assert(seg_texts(slash) + seg_texts(r) =~= seg_texts(r));
            assert(y[0] == '/');
        }
        assert(seg_texts(y) == seg_texts(r));
        lemma_seg_concat(base, y);
        lemma_lead_concat(base, y);
        lemma_comps_form(base + y);
        lemma_drop_dots_concat(seg_texts(base), seg_texts(y));
        assert(components(base + y) =~= components(base) + components(r));
    }
}

/// Taking one more span, when its text is not `.`, adds it to the named
/// spans.
proof fn lemma_named_take_push(s: Seq<char>, sp: Seq<(int, int)>, m: int)
    requires
        0 <= m < sp.len(),
        span_text(s, sp[m]) != seq!['.'],
    ensures
        named_spans(s, sp.take(m + 1)) == named_spans(s, sp.take(m)).push(sp[m]),
{
    assert(sp.take(m + 1).drop_last() =~= sp.take(m));
    assert(sp.take(m + 1).last() == sp[m]);
}

/// The segments found from position `a` of `s` are the segments of the text
/// from `a` on.
proof fn lemma_skip_texts(s: Seq<char>, a: int)
    requires
        0 <= a <= s.len(),
    ensures
        texts(s, spans_from(s, a)) == seg_texts(s.skip(a)),
{
    let t = s.skip(a);
    assert(s =~= s.take(a) + t);
    lemma_spans_shift(s.take(a), t, 0);
    lemma_spans_bounds(t, 0);
    assert forall|k: int| 0 <= k < spans_from(t, 0).len() implies 0 <= #[trigger] spans_from(t, 0)[k].0
        <= spans_from(t, 0)[k].1 <= t.len() by {}
    assert(t =~= s.subrange(a, a + t.len()));
    lemma_texts_shift(s, a, t, spans_from(t, 0));
}

/// Past the end of the last named segment of `s` there are only `.`
/// segments.
proof fn lemma_tail_dots(s: Seq<char>, m2: int)
    requires
        0 <= m2 < spans_from(s, 0).len(),
        span_text(s, spans_from(s, 0)[m2]) != seq!['.'],
        named_spans(s, spans_from(s, 0).take(m2)).len() + 1 == named_spans(s, spans_from(s, 0)).len(),
    ensures
        drop_dots(seg_texts(s.skip(spans_from(s, 0)[m2].1))) == Seq::<Seq<char>>::empty(),
{
    let sp = spans_from(s, 0);
    let b = sp[m2].1;
    lemma_spans_bounds(s, 0);
    lemma_spans_suffix(s, 0, m2);
    let p0 = sp[m2].0;
    assert(s.skip(p0)[0] == s[p0]);
    lemma_run_len_bound(s.skip(p0), CharClass::NotSlash);
    assert(spans_from(s, p0) == seq![(p0, p0 + run_len(s.skip(p0), CharClass::NotSlash))] + spans_from(
        s,
        p0 + run_len(s.skip(p0), CharClass::NotSlash),
    ));
    assert(sp.skip(m2)[0] == sp[m2]);
    assert(sp.skip(m2 + 1) =~= sp.skip(m2).drop_first());
    assert(sp.skip(m2 + 1) == spans_from(s, b));
    lemma_skip_texts(s, b);
    lemma_named_take_push(s, sp, m2);
    assert(sp =~= sp.take(m2 + 1) + sp.skip(m2 + 1));
    lemma_named_concat(s, sp.take(m2 + 1), sp.skip(m2 + 1));
    assert(named_spans(s, sp.skip(m2 + 1)).len() == 0);
    lemma_named_texts(s, sp.skip(m2 + 1));
    assert(drop_dots(seg_texts(s.skip(b))) =~= Seq::<Seq<char>>::empty());
}

/// The text between the start of a named segment and the end of a later
/// segment is relative and has no leading component of its own.
proof fn lemma_remainder_lead(s: Seq<char>, m: int, b: int)
    requires
        0 <= m < spans_from(s, 0).len(),
        span_text(s, spans_from(s, 0)[m]) != seq!['.'],
        spans_from(s, 0)[m].0 < b <= s.len(),
        b == s.len() || s[b] == '/',
    ensures
        ({
            let r = s.subrange(spans_from(s, 0)[m].0, b);
            !is_absolute(r) && lead(r) == Seq::<Seq<char>>::empty()
        }),
{
    let sp = spans_from(s, 0);
    let a = sp[m].0;
    let r = s.subrange(a, b);
    lemma_spans_bounds(s, 0);
    lemma_spans_suffix(s, 0, m);
    assert(r[0] == s[a]);
    if starts_with_cur_dir(r) {
        assert(s.skip(a)[0] == s[a]);
        if r.len() > 1 {
            assert(s.skip(a)[1] == r[1]);
        } else {
            assert(b == a + 1);
            if b < s.len() {
                assert(s.skip(a)[1] == s[b]);
            }
        }
        lemma_run_len(s.skip(a), CharClass::NotSlash, 1);
        assert(sp.skip(m)[0] == sp[m]);
        assert(spans_from(s, a) == seq![(a, a + 1)] + spans_from(s, a + 1));
        assert(span_text(s, sp[m]) =~= seq!['.']);
    }
}

/// What remains of `s` after a component prefix `base` of at least one
/// component has exactly the components of `s` that follow those of `base`,
/// and is empty or relative with no leading component of its own.
#[verifier::rlimit(40)]
proof fn lemma_strip_components(s: Seq<char>, base: Seq<char>)
    requires
        component_prefix(s, base),
        tokens(base).len() > 0,
    ensures
        strip_remainder(s, base) is Some,
        ({
            let r = strip_remainder(s, base)->0;
            &&& components(r) == components(s).skip(tokens(base).len() as int)
            &&& (r.len() == 0 || (!is_absolute(r) && lead(r) == Seq::<Seq<char>>::empty()))
        }),
{
    let ts = tokens(s);
    let nb = tokens(base).len() as int;
    let sp = spans_from(s, 0);
    let named = named_spans(s, sp);
    lemma_comps_form(s);
    lemma_named_texts(s, sp);
    lemma_no_segments_empty();
    lemma_spans_bounds(s, 0);
    lemma_named_not_dot(s, sp);
    let pre = lead(s).len() as int;
    assert(ts.len() == pre + named.len());
    if nb >= ts.len() {
        assert(components(s).skip(nb) =~= Seq::<Seq<char>>::empty());
        return;
    }
    let j = nb - pre;
    assert(ts[nb] == named[j]);
    assert(ts.last() == named[named.len() - 1]);
    let m = lemma_named_index(s, sp, j);
    let m2 = lemma_named_index(s, sp, named.len() - 1);
    let a = sp[m].0;
    let b = sp[m2].1;
    assert(span_text(s, sp[m]) != seq!['.']);
    assert(span_text(s, sp[m2]) != seq!['.']);
    assert(m <= m2) by {
        if m2 < m {
            lemma_named_take_push(s, sp, m2);
            assert(sp.take(m) =~= sp.take(m2 + 1) + sp.subrange(m2 + 1, m));
            lemma_named_concat(s, sp.take(m2 + 1), sp.subrange(m2 + 1, m));
        }
    }
    lemma_spans_suffix(s, 0, m);
    lemma_spans_bounds(s, a);
    assert(sp.skip(m)[m2 - m] == sp[m2]);
    assert(spans_from(s, a)[m2 - m] == sp[m2]);
    let r = s.subrange(a, b);
    let q = s.skip(b);
    let t = s.skip(a);
    assert(t =~= r + q);
    assert(strip_remainder(s, base) == Some(r));
    lemma_skip_texts(s, a);
    lemma_tail_dots(s, m2);
    assert(boundary(r, q)) by {
        if q.len() > 0 {
            assert(q[0] == s[b]);
        }
    }
    lemma_seg_concat(r, q);
    lemma_drop_dots_concat(seg_texts(r), seg_texts(q));
    assert(drop_dots(seg_texts(t)) =~= drop_dots(seg_texts(r)));
    assert(sp =~= sp.take(m) + sp.skip(m));
    assert(texts(s, sp) =~= texts(s, sp.take(m)) + texts(s, sp.skip(m)));
    lemma_drop_dots_concat(texts(s, sp.take(m)), texts(s, sp.skip(m)));
    lemma_named_texts(s, sp.take(m));
    assert(drop_dots(texts(s, sp.take(m))).len() == j);
    assert(components(s).skip(nb) =~= drop_dots(texts(s, sp.skip(m))));
    lemma_comps_form(r);
    lemma_remainder_lead(s, m, b);
}

/// Relocating a folder keeps what lies below the last known mount point: when
/// that mount point (of at least one component) begins the folder's path, the
/// relocated path has the components of the new mount point followed by the
/// folder's components after all of the old mount point's.
pub proof fn law_relocation_keeps_remainder(selected: Seq<char>, last_mount: Seq<char>, new_mount: Seq<char>)
    requires
        component_prefix(selected, last_mount),
        components(last_mount).len() > 0,
    ensures
        components(relocation_target(selected, last_mount, new_mount)) == components(new_mount) + components(
            selected,
        ).skip(components(last_mount).len() as int),
{
    lemma_strip_components(selected, last_mount);
    lemma_push_components(new_mount, strip_remainder(selected, last_mount)->0);
}

} // verus!
