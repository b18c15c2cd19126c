//! The decisions `hluk init`, `build` and `run` make about a project
//! before anything touches the disk or the network.

use vstd::prelude::*;

use crate::guest::{lines, lines_from, lines_of, strip_cr, views, Mount};
use crate::manifest::{join_path, spec_join};
use crate::registry::{strip_prefix, strip_prefix_of};
use crate::text::{find_from, lemma_find_from, trim_start_ws};
use crate::text::{
    chars_eq, chars_of, debug_quoted, push_char, push_chars, push_str, quoted, string_of,
    same_text as eq, trim_chars, trim_end, trim_end_len, trim_ws,
};

verus! {

/// Whether a `.gitignore` line asks for something: not blank, not a
/// comment.
pub open spec fn wanted_line(l: Seq<char>) -> bool {
    trim_ws(l).len() > 0 && !(l.len() > 0 && l[0] == '#')
}

/// Whether one of the first `n` of `have` is `l`, blanks around ignored.
pub open spec fn has_line(have: Seq<Seq<char>>, l: Seq<char>, n: int) -> bool
    decreases n,
{
    if n <= 0 {
        false
    } else {
        has_line(have, l, n - 1) || trim_ws(have[n - 1]) == trim_ws(l)
    }
}

/// The lines of `template` that ask for something `have` lacks, in order.
pub open spec fn missing_lines(template: Seq<Seq<char>>, have: Seq<Seq<char>>) -> Seq<Seq<char>>
    decreases template.len(),
{
    if template.len() == 0 {
        seq![]
    } else {
        let l = template.last();
        let rest = missing_lines(template.drop_last(), have);
        if wanted_line(l) && !has_line(have, l, have.len() as int) {
            rest.push(l)
        } else {
            rest
        }
    }
}

/// Lines, each ended by a newline.
pub open spec fn line_block(ls: Seq<Seq<char>>) -> Seq<char>
    decreases ls.len(),
{
    if ls.len() == 0 {
        seq![]
    } else {
        line_block(ls.drop_last()) + ls.last() + seq!['\n']
    }
}

/// `existing` with the wanted lines of `template` it lacks appended under
/// a `# hluk` heading, after a blank line; `existing` itself when it
/// lacks none.
pub open spec fn merged_gitignore(existing: Seq<char>, template: Seq<char>) -> Seq<char> {
    let missing = missing_lines(lines(template), lines(existing));
    if missing.len() == 0 {
        existing
    } else {
        let base = if existing.len() > 0 && existing.last() != '\n' {
            existing.push('\n')
        } else {
            existing
        };
        base + "\n# hluk\n"@ + line_block(missing)
    }
}

/// Merging never drops or changes what `.gitignore` already held: the
/// merged file starts with the existing one.
pub proof fn law_merge_keeps_what_was_there(existing: Seq<char>, template: Seq<char>)
    ensures
        merged_gitignore(existing, template).len() >= existing.len(),
        merged_gitignore(existing, template).take(existing.len() as int) == existing,
{
    let missing = missing_lines(lines(template), lines(existing));
    if missing.len() > 0 {
        let base = if existing.len() > 0 && existing.last() != '\n' {
            existing.push('\n')
        } else {
            existing
        };
        let m = base + "\n# hluk\n"@ + line_block(missing);
        assert(m.take(existing.len() as int) =~= existing);
    }
}

/// A search that starts past `a` in `a + b` finds what it finds in `b`,
/// shifted.
proof fn lemma_find_shift(a: Seq<char>, b: Seq<char>, c: char, k: int)
    requires
        0 <= k,
    ensures
        find_from(a + b, c, a.len() + k) == match find_from(b, c, k) {
            Some(i) => Some(i + a.len()),
            None => None::<int>,
        },
    decreases b.len() - k,
{
    if k < b.len() && b[k] != c {
        lemma_find_shift(a, b, c, k + 1);
    }
}

/// A search inside `a`, which ends with `c`, stops inside `a`.
proof fn lemma_find_prefix(a: Seq<char>, b: Seq<char>, c: char, pos: int)
    requires
        0 <= pos < a.len(),
        a.last() == c,
    ensures
        find_from(a + b, c, pos) == find_from(a, c, pos),
        find_from(a, c, pos) matches Some(i) && i < a.len(),
    decreases a.len() - pos,
{
    if (a + b)[pos] != c {
        lemma_find_prefix(a, b, c, pos + 1);
    }
}

/// The lines of `a + b` past `a` are the lines of `b`.
proof fn lemma_lines_shift(a: Seq<char>, b: Seq<char>, k: int)
    requires
        0 <= k,
    ensures
        lines_from(a + b, a.len() + k) == lines_from(b, k),
    decreases b.len() - k,
{
    lemma_find_shift(a, b, '\n', k);
    if k < b.len() {
        match find_from(b, '\n', k) {
            Some(i) => {
                lemma_find_from(b, '\n', k);
                lemma_lines_shift(a, b, i + 1);
                assert((a + b).subrange(a.len() + k, a.len() + i) =~= b.subrange(k, i));
            },
            None => {
                assert((a + b).subrange(a.len() + k, (a + b).len() as int) =~= b.subrange(k, b.len() as int));
            },
        }
    }
}

/// Text that is empty or ends a line splits off: the lines of `a + b` are
/// those of `a`, then those of `b`.
pub(crate) proof fn lemma_lines_append(a: Seq<char>, b: Seq<char>, pos: int)
    requires
        0 <= pos <= a.len(),
        a.len() == 0 || a.last() == '\n',
    ensures
        lines_from(a + b, pos) == lines_from(a, pos) + lines_from(b, 0),
    decreases a.len() - pos,
{
    if pos == a.len() {
        lemma_lines_shift(a, b, 0);
        assert(lines_from(a, pos) =~= Seq::<Seq<char>>::empty());
        assert(lines_from(a, pos) + lines_from(b, 0) =~= lines_from(b, 0));
    } else {
        lemma_find_prefix(a, b, '\n', pos);
        lemma_find_from(a, '\n', pos);
        let i = find_from(a, '\n', pos)->0;
        lemma_lines_append(a, b, i + 1);
        assert((a + b).subrange(pos, i) =~= a.subrange(pos, i));
        assert(lines_from(a + b, pos) =~= seq![strip_cr(a.subrange(pos, i))] + lines_from(a + b, i + 1));
        assert(lines_from(a, pos) =~= seq![strip_cr(a.subrange(pos, i))] + lines_from(a, i + 1));
        assert(lines_from(a + b, pos) =~= lines_from(a, pos) + lines_from(b, 0));
    }
}

/// No line holds a line break.
proof fn lemma_lines_unbroken(s: Seq<char>, pos: int)
    requires
        0 <= pos,
    ensures
        forall|j: int| 0 <= j < lines_from(s, pos).len() ==> !(#[trigger] lines_from(s, pos)[j]).contains('\n'),
    decreases s.len() - pos,
{
    if pos < s.len() {
        lemma_find_from(s, '\n', pos);
        match find_from(s, '\n', pos) {
            Some(i) => {
                lemma_lines_unbroken(s, i + 1);
                let l = strip_cr(s.subrange(pos, i));
                assert(!l.contains('\n')) by {
                    if l.contains('\n') {
                        let k = choose|k: int| 0 <= k < l.len() && l[k] == '\n';
                        assert(s[pos + k] == '\n');
                    }
                }
                assert forall|j: int| 0 <= j < lines_from(s, pos).len() implies !(#[trigger] lines_from(s, pos)[j]).contains('\n') by {
                    if j > 0 {
                        assert(lines_from(s, pos)[j] == lines_from(s, i + 1)[j - 1]);
                    }
                }
            },
            None => {
                let l = s.subrange(pos, s.len() as int);
                assert(!l.contains('\n')) by {
                    if l.contains('\n') {
                        let k = choose|k: int| 0 <= k < l.len() && l[k] == '\n';
                        assert(s[pos + k] == '\n');
                    }
                }
            },
        }
    }
}

/// One unbroken line and its line break are that line.
proof fn lemma_lines_one(l: Seq<char>)
    requires
        !l.contains('\n'),
    ensures
        lines(l + seq!['\n']) == seq![strip_cr(l)],
{
    let s = l + seq!['\n'];
    lemma_find_from(s, '\n', 0);
    assert(s[l.len() as int] == '\n');
    assert forall|j: int| 0 <= j < l.len() implies s[j] != '\n' by {
        assert(s[j] == l[j]);
    }
    assert(find_from(s, '\n', 0) == Some(l.len() as int));
    assert(s.subrange(0, l.len() as int) =~= l);
    assert(lines_from(s, l.len() as int + 1) =~= Seq::<Seq<char>>::empty());
    assert(lines(s) =~= seq![strip_cr(l)]);
}

/// A block of unbroken lines reads back as those lines, each without a
/// trailing `\r`.
pub(crate) proof fn lemma_lines_block(ms: Seq<Seq<char>>)
    requires
        forall|j: int| 0 <= j < ms.len() ==> !(#[trigger] ms[j]).contains('\n'),
    ensures
        lines(line_block(ms)) == Seq::new(ms.len(), |j: int| strip_cr(ms[j])),
        line_block(ms).len() == 0 || line_block(ms).last() == '\n',
    decreases ms.len(),
{
    if ms.len() == 0 {
        assert(lines(line_block(ms)) =~= Seq::<Seq<char>>::empty());
        assert(Seq::new(ms.len(), |j: int| strip_cr(ms[j])) =~= Seq::<Seq<char>>::empty());
    } else {
        let front = ms.drop_last();
        lemma_lines_block(front);
        let tail = ms.last() + seq!['\n'];
        assert(line_block(ms) =~= line_block(front) + tail);
        lemma_lines_append(line_block(front), tail, 0);
        lemma_lines_one(ms.last());
        assert(lines(line_block(ms)) =~= Seq::new(ms.len(), |j: int| strip_cr(ms[j])));
    }
}

/// Ending text with a line break keeps its lines, each up to a `\r`.
proof fn lemma_lines_terminated(e: Seq<char>, pos: int)
    requires
        0 <= pos < e.len(),
        e.last() != '\n',
    ensures
        lines_from(e.push('\n'), pos).len() == lines_from(e, pos).len(),
        forall|j: int| 0 <= j < lines_from(e, pos).len() ==> trim_ws(#[trigger] lines_from(e.push('\n'), pos)[j]) == trim_ws(lines_from(e, pos)[j]),
    decreases e.len() - pos,
{
    let s = e.push('\n');
    lemma_find_from(e, '\n', pos);
    lemma_find_from(s, '\n', pos);
    match find_from(e, '\n', pos) {
        Some(i) => {
            assert(find_from(s, '\n', pos) == Some(i)) by {
                assert(s[i] == '\n');
                assert forall|j: int| pos <= j < i implies s[j] != '\n' by {
                    assert(s[j] == e[j]);
                }
            }
            assert(i + 1 < e.len());
            lemma_lines_terminated(e, i + 1);
            assert(s.subrange(pos, i) =~= e.subrange(pos, i));
            assert forall|j: int| 0 <= j < lines_from(e, pos).len() implies trim_ws(#[trigger] lines_from(s, pos)[j]) == trim_ws(lines_from(e, pos)[j]) by {
                if j > 0 {
                    assert(lines_from(s, pos)[j] == lines_from(s, i + 1)[j - 1]);
                    assert(lines_from(e, pos)[j] == lines_from(e, i + 1)[j - 1]);
                }
            }
        },
        None => {
            assert(find_from(s, '\n', pos) == Some(e.len() as int)) by {
                assert(s[e.len() as int] == '\n');
                assert forall|j: int| pos <= j < e.len() implies s[j] != '\n' by {
                    assert(s[j] == e[j]);
                }
            }
            assert(s.subrange(pos, e.len() as int) =~= e.subrange(pos, e.len() as int));
            assert(lines_from(s, e.len() as int + 1) =~= Seq::<Seq<char>>::empty());
            lemma_trim_strip_cr(e.subrange(pos, e.len() as int));
        },
    }
}

/// Where white space starts running to the end of `s`, skipping it from
/// the front first.
proof fn lemma_trim_start_skips(s: Seq<char>)
    ensures
        exists|k: int| 0 <= k <= s.len() && trim_start_ws(s) == s.skip(k) && (k < s.len() ==> !crate::text::is_space(s[k]))
            && forall|j: int| 0 <= j < k ==> crate::text::is_space(#[trigger] s[j]),
    decreases s.len(),
{
    if s.len() > 0 && crate::text::is_space(s[0]) {
        lemma_trim_start_skips(s.drop_first());
        let k = choose|k: int| 0 <= k <= s.drop_first().len() && trim_start_ws(s.drop_first()) == s.drop_first().skip(k)
            && (k < s.drop_first().len() ==> !crate::text::is_space(s.drop_first()[k]))
            && forall|j: int| 0 <= j < k ==> crate::text::is_space(#[trigger] s.drop_first()[j]);
        assert(s.drop_first().skip(k) =~= s.skip(k + 1));
        assert forall|j: int| 0 <= j < k + 1 implies crate::text::is_space(#[trigger] s[j]) by {
            if j > 0 {
                assert(s[j] == s.drop_first()[j - 1]);
            }
        }
    } else {
        assert(s.skip(0) =~= s);
    }
}

/// A `\r` dropped from the end changes nothing that trimming keeps.
proof fn lemma_trim_strip_cr(l: Seq<char>)
    ensures
        trim_ws(strip_cr(l)) == trim_ws(l),
{
    if l.len() > 0 && l.last() == '\r' {
        let d = l.drop_last();
        lemma_trim_start_skips(l);
        lemma_trim_start_skips(d);
        let k = choose|k: int| 0 <= k <= l.len() && trim_start_ws(l) == l.skip(k) && (k < l.len() ==> !crate::text::is_space(l[k]))
            && forall|j: int| 0 <= j < k ==> crate::text::is_space(#[trigger] l[j]);
        let m = choose|m: int| 0 <= m <= d.len() && trim_start_ws(d) == d.skip(m) && (m < d.len() ==> !crate::text::is_space(d[m]))
            && forall|j: int| 0 <= j < m ==> crate::text::is_space(#[trigger] d[j]);
        assert(crate::text::is_space(l.last()));
        if k == l.len() {
            // All of `l` is white space, so all of `d` is too.
            assert(m == d.len()) by {
                if m < d.len() {
                    assert(d[m] == l[m]);
                }
            }
            assert(trim_start_ws(l) =~= Seq::<char>::empty());
            assert(trim_start_ws(d) =~= Seq::<char>::empty());
        } else {
            assert(k < d.len());
            assert(m == k) by {
                if m < k {
                    assert(d[m] == l[m]);
                } else if m > k {
                    assert(d[k] == l[k]);
                }
            }
            let t = l.skip(k);
            assert(d.skip(k) =~= t.drop_last());
            assert(t.len() > 0 && crate::text::is_space(t.last()));
        }
    }
}

/// `has_line` holds exactly when some one of the first `n` matches.
proof fn lemma_has_line_witness(have: Seq<Seq<char>>, l: Seq<char>, n: int)
    requires
        n <= have.len(),
    ensures
        has_line(have, l, n) <==> exists|j: int| 0 <= j < n && trim_ws(#[trigger] have[j]) == trim_ws(l),
    decreases n,
{
    if n > 0 {
        lemma_has_line_witness(have, l, n - 1);
        if trim_ws(have[n - 1]) == trim_ws(l) {
            assert(0 <= n - 1 < n && trim_ws(have[n - 1]) == trim_ws(l));
        }
    }
}

/// A wanted template line the file lacks is among the missing ones; and
/// every missing line is a template line.
proof fn lemma_missing_lines(template: Seq<Seq<char>>, have: Seq<Seq<char>>)
    ensures
        forall|j: int| 0 <= j < template.len() && wanted_line(#[trigger] template[j]) && !has_line(have, template[j], have.len() as int)
            ==> missing_lines(template, have).contains(template[j]),
        forall|k: int| 0 <= k < missing_lines(template, have).len() ==> template.contains(#[trigger] missing_lines(template, have)[k]),
    decreases template.len(),
{
    if template.len() > 0 {
        let front = template.drop_last();
        lemma_missing_lines(front, have);
        let rest = missing_lines(front, have);
        let l = template.last();
        assert forall|j: int| 0 <= j < template.len() && wanted_line(#[trigger] template[j]) && !has_line(have, template[j], have.len() as int)
            implies missing_lines(template, have).contains(template[j]) by {
            if j < template.len() - 1 {
                assert(front[j] == template[j]);
                let k = choose|k: int| 0 <= k < rest.len() && rest[k] == front[j];
                if wanted_line(l) && !has_line(have, l, have.len() as int) {
                    assert(rest.push(l)[k] == template[j]);
                }
            } else {
                assert(rest.push(l)[rest.len() as int] == l);
            }
        }
        assert forall|k: int| 0 <= k < missing_lines(template, have).len() implies template.contains(#[trigger] missing_lines(template, have)[k]) by {
            if k < rest.len() {
                let x = rest[k];
                let i = choose|i: int| 0 <= i < front.len() && front[i] == x;
                assert(template[i] == x);
            } else {
                assert(template[template.len() - 1] == l);
            }
        }
    }
}

/// Nothing is missing when every wanted template line is had.
proof fn lemma_nothing_missing(template: Seq<Seq<char>>, have: Seq<Seq<char>>)
    requires
        forall|j: int| 0 <= j < template.len() && wanted_line(#[trigger] template[j]) ==> has_line(have, template[j], have.len() as int),
    ensures
        missing_lines(template, have).len() == 0,
    decreases template.len(),
{
    if template.len() > 0 {
        let front = template.drop_last();
        assert forall|j: int| 0 <= j < front.len() && wanted_line(#[trigger] front[j]) implies has_line(have, front[j], have.len() as int) by {
            assert(template[j] == front[j]);
        }
        lemma_nothing_missing(front, have);
        assert(template[template.len() - 1] == template.last());
    }
}

/// Merging twice adds nothing the first merge did not: the merged file
/// already has every line the template asks for.
pub proof fn law_merge_twice_adds_nothing(existing: Seq<char>, template: Seq<char>)
    ensures
        merged_gitignore(merged_gitignore(existing, template), template) == merged_gitignore(existing, template),
{
    let tl = lines(template);
    let el = lines(existing);
    let missing = missing_lines(tl, el);
    if missing.len() > 0 {
        let base = if existing.len() > 0 && existing.last() != '\n' {
            existing.push('\n')
        } else {
            existing
        };
        reveal_strlit("\n# hluk\n");
        let head = "\n# hluk\n"@;
        let block = line_block(missing);
        let merged = merged_gitignore(existing, template);
        assert(merged =~= base + (head + block));
        // The merged file's lines: the file's, the heading's, the block's.
        lemma_missing_lines(tl, el);
        lemma_lines_unbroken(template, 0);
        assert forall|j: int| 0 <= j < missing.len() implies !(#[trigger] missing[j]).contains('\n') by {
            let i = choose|i: int| 0 <= i < tl.len() && tl[i] == missing[j];
        }
        lemma_lines_block(missing);
        assert(head.len() > 0 && head.last() == '\n');
        lemma_lines_append(head, block, 0);
        assert(base.len() == 0 || base.last() == '\n');
        lemma_lines_append(base, head + block, 0);
        let ml = lines(merged);
        let bl = lines(base);
        let hl = lines(head);
        assert(ml == bl + (hl + lines(block)));
        if existing.len() > 0 && existing.last() != '\n' {
            lemma_lines_terminated(existing, 0);
        }
        assert(bl.len() == el.len());
        assert forall|j: int| 0 <= j < el.len() implies trim_ws(#[trigger] bl[j]) == trim_ws(el[j]) by {}
        assert forall|j: int| 0 <= j < tl.len() && wanted_line(#[trigger] tl[j]) implies has_line(ml, tl[j], ml.len() as int) by {
            lemma_has_line_witness(ml, tl[j], ml.len() as int);
            lemma_has_line_witness(el, tl[j], el.len() as int);
            if has_line(el, tl[j], el.len() as int) {
                let k = choose|k: int| 0 <= k < el.len() && trim_ws(#[trigger] el[k]) == trim_ws(tl[j]);
                assert(ml[k] == bl[k]);
                assert(trim_ws(ml[k]) == trim_ws(tl[j]));
            } else {
                let k = choose|k: int| 0 <= k < missing.len() && missing[k] == tl[j];
                let at = bl.len() + hl.len() + k;
                assert(ml[at] == lines(block)[k]);
                lemma_trim_strip_cr(missing[k]);
                assert(trim_ws(ml[at]) == trim_ws(tl[j]));
            }
        }
        lemma_nothing_missing(tl, ml);
    }
}

/// Whether `have` (trimmed) lists `t`.
fn lists_line(have: &Vec<Vec<char>>, line: &Vec<char>) -> (r: bool)
    ensures
        r == has_line(views(have@), line@, have@.len() as int),
{
    let ghost hv = views(have@);
    let t = trim_chars(line);
    let mut j: usize = 0;
    let mut found = false;
    while j < have.len()
        invariant
            j <= have@.len(),
            hv == views(have@),
            t@ == trim_ws(line@),
            found == has_line(hv, line@, j as int),
        decreases have@.len() - j,
    {
        let h = trim_chars(&have[j]);
        if chars_eq(&h, &t) {
            found = true;
        }
        proof {
            assert(hv[j as int] == have@[j as int]@);
        }
        j += 1;
    }
    found
}

/// `.gitignore` as `hluk init` leaves it: see [`merged_gitignore`].
pub fn merge_gitignore(existing: &str, template: &str) -> (r: String)
    ensures
        r@ == merged_gitignore(existing@, template@),
{
    let ev = chars_of(existing);
    let tv = chars_of(template);
    let have = lines_of(&ev);
    let tl = lines_of(&tv);
    let ghost hv = views(have@);
    let ghost tlv = views(tl@);
    let mut missing: Vec<Vec<char>> = Vec::new();
    let mut i: usize = 0;
    while i < tl.len()
        invariant
            i <= tl@.len(),
            hv == views(have@),
            tlv == views(tl@),
            hv == lines(existing@),
            views(missing@) == missing_lines(tlv.take(i as int), hv),
        decreases tl@.len() - i,
    {
        let line = &tl[i];
        let t = trim_chars(line);
        let blank = t.len() == 0;
        let comment = line.len() > 0 && line[0] == '#';
        let mut keep = false;
        if !blank && !comment {
            keep = !lists_line(&have, line);
        }
        proof {
            assert(tlv.take(i + 1).drop_last() =~= tlv.take(i as int));
            assert(tlv.take(i + 1).last() == line@);
        }
        if keep {
            let ghost before = missing@;
            missing.push(line.clone());
            proof {
                assert(views(missing@) =~= views(before).push(line@));
            }
        }
        i += 1;
    }
    proof {
        assert(tlv.take(i as int) =~= tlv);
    }
    if missing.len() == 0 {
        return existing.to_owned();
    }
    let mut out = existing.to_owned();
    if ev.len() > 0 && ev[ev.len() - 1] != '\n' {
        push_char(&mut out, '\n');
    }
    push_str(&mut out, "\n# hluk\n");
    let ghost base = out@;
    let ghost mv = views(missing@);
    let mut k: usize = 0;
    while k < missing.len()
        invariant
            k <= missing@.len(),
            mv == views(missing@),
            out@ == base + line_block(mv.take(k as int)),
        decreases missing@.len() - k,
    {
        proof {
            assert(mv.take(k + 1).drop_last() =~= mv.take(k as int));
            assert(mv[k as int] == missing@[k as int]@);
        }
        push_chars(&mut out, &missing[k]);
        push_char(&mut out, '\n');
        proof {
            assert(base + line_block(mv.take(k + 1)) =~= base + line_block(mv.take(k as int)) + mv[k as int] + seq!['\n']);
        }
        k += 1;
    }
    proof {
        assert(mv.take(k as int) =~= mv);
    }
    out
}

/// A letter of the ASCII alphabet.
pub open spec fn is_ascii_alpha(c: char) -> bool {
    ('a' <= c && c <= 'z') || ('A' <= c && c <= 'Z')
}

/// A character a project name may hold.
pub open spec fn project_name_char(c: char) -> bool {
    is_ascii_alpha(c) || crate::text::is_ascii_digit(c) || c == '-' || c == '_'
}

/// A name that works everywhere a project's name ends up (a Cargo
/// package, a Go module, a Docker tag, a filename): at most 64 letters,
/// digits, `-` and `_`, starting with a letter.
pub open spec fn valid_project_name(s: Seq<char>) -> bool {
    &&& 0 < s.len() <= 64
    &&& is_ascii_alpha(s[0])
    &&& forall|i: int| 0 <= i < s.len() ==> project_name_char(#[trigger] s[i])
}

/// Accept a project name (see [`valid_project_name`]) or say what one
/// looks like.
pub fn validate_name(name: &str) -> (r: Result<(), String>)
    ensures
        r is Ok <==> valid_project_name(name@),
        r matches Err(m) ==> m@ == "project name "@ + debug_quoted(name@)
            + ": use letters, digits, `-` and `_`, starting with a letter (pass --name to choose one)"@,
{
    let v = chars_of(name);
    let mut ok = v.len() > 0 && v.len() <= 64;
    if ok {
        let c = v[0];
        ok = ('a' <= c && c <= 'z') || ('A' <= c && c <= 'Z');
    }
    let mut i: usize = 0;
    while ok && i < v.len()
        invariant
            i <= v@.len(),
            ok ==> (0 < v@.len() <= 64 && is_ascii_alpha(v@[0])),
            ok ==> forall|j: int| 0 <= j < i ==> project_name_char(#[trigger] v@[j]),
            !ok ==> !valid_project_name(v@),
        decreases v@.len() - i,
    {
        let c = v[i];
        if !(('a' <= c && c <= 'z') || ('A' <= c && c <= 'Z') || ('0' <= c && c <= '9') || c == '-'
            || c == '_') {
            ok = false;
            assert(!project_name_char(v@[i as int]));
        }
        i += 1;
    }
    if ok {
        Ok(())
    } else {
        let mut m = "project name ".to_owned();
        let q = quoted(name);
        push_str(&mut m, q.as_str());
        push_str(&mut m, ": use letters, digits, `-` and `_`, starting with a letter (pass --name to choose one)");
        Err(m)
    }
}

/// Whether a `--runtime` names a published image, or a full reference
/// (anyone's to name).
pub open spec fn runtime_name_ok(spec: Seq<char>) -> bool {
    spec.contains('/') || crate::initrd::runtime_mb(spec) is Some
}

/// A bare `--runtime` name must be one of the published images; a full
/// reference (one with a `/`) is anyone's to name.
pub fn check_runtime_name(spec: &str) -> (r: Result<(), String>)
    ensures
        r is Ok <==> runtime_name_ok(spec@),
        r matches Err(m) ==> m@ == "no runtime image called "@ + debug_quoted(spec@)
            + "; the published ones are c, rust, quickjs, go, bash, python, python-shell, wasmtime, dotnet-aot, node, dotnet-jit, powershell, agent, or pass a full image reference"@,
{
    let v = chars_of(spec);
    if crate::text::contains_char(&v, '/') || crate::initrd::runtime_scratch_mb(spec).is_some() {
        return Ok(());
    }
    let mut m = "no runtime image called ".to_owned();
    let q = quoted(spec);
    push_str(&mut m, q.as_str());
    push_str(&mut m, "; the published ones are c, rust, quickjs, go, bash, python, python-shell, wasmtime, dotnet-aot, node, dotnet-jit, powershell, agent, or pass a full image reference");
    Err(m)
}

/// The host path a guest path names through one mount: the mount point
/// (trailing `/`s aside) must be the whole guest path or a leading run
/// of it that a `/` ends; `/mnt/ap` does not cover `/mnt/app/x`.
pub open spec fn through_mount(guest: Seq<char>, m: Mount) -> Option<Seq<char>> {
    match strip_prefix(guest, trim_end(m.guest_path@, '/')) {
        Some(rest) => if rest.len() > 0 && rest[0] == '/' {
            Some(spec_join(m.host_path@, rest.skip(1)))
        } else if rest.len() == 0 {
            Some(m.host_path@)
        } else {
            None
        },
        None => None,
    }
}

/// The host path for `guest` through the first of `mounts[i..]` that
/// covers it.
pub open spec fn host_path_from(guest: Seq<char>, mounts: Seq<Mount>, i: int) -> Option<Seq<char>>
    decreases mounts.len() - i,
{
    if i < 0 || i >= mounts.len() {
        None
    } else {
        match through_mount(guest, mounts[i]) {
            Some(p) => Some(p),
            None => host_path_from(guest, mounts, i + 1),
        }
    }
}

fn mount_path(guest: &Vec<char>, m: &Mount) -> (r: Option<String>)
    ensures
        match through_mount(guest@, *m) {
            Some(p) => r matches Some(x) && x@ == p,
            None => r is None,
        },
{
    let gp = chars_of(m.guest_path.as_str());
    let n = trim_end_len(&gp, '/');
    let point = string_of(&crate::text::prefix(&gp, n));
    match strip_prefix_of(guest, point.as_str()) {
        Some(rest) => {
            if rest.len() > 0 && rest[0] == '/' {
                let tail = string_of(&crate::text::slice_vec(&rest, 1, rest.len()));
                assert(tail@ =~= rest@.skip(1));
                Some(join_path(m.host_path.as_str(), tail.as_str()))
            } else if rest.len() == 0 {
                Some(m.host_path.clone())
            } else {
                None
            }
        },
        None => None,
    }
}

/// The host file a guest path names through the mounts, if one covers it
/// (see [`through_mount`]); the first mount that covers it wins.
pub fn host_path(guest: &str, mounts: &Vec<Mount>) -> (r: Option<String>)
    ensures
        match host_path_from(guest@, mounts@, 0) {
            Some(p) => r matches Some(x) && x@ == p,
            None => r is None,
        },
{
    let g = chars_of(guest);
    let mut i: usize = 0;
    while i < mounts.len()
        invariant
            i <= mounts@.len(),
            g@ == guest@,
            host_path_from(guest@, mounts@, 0) == host_path_from(guest@, mounts@, i as int),
        decreases mounts@.len() - i,
    {
        match mount_path(&g, &mounts[i]) {
            Some(p) => {
                return Some(p);
            },
            None => {},
        }
        i += 1;
    }
    None
}

/// Whether an ELF header (its first 18 bytes) marks a program linked at
/// a fixed address (`e_type` 2, `ET_EXEC`): the guest's loader needs a
/// position-independent one.  Anything shorter, or not ELF, is not.
pub open spec fn fixed_address(header: Seq<u8>) -> bool {
    &&& header.len() >= 18
    &&& header[0] == 0x7f && header[1] == 0x45 && header[2] == 0x4c && header[3] == 0x46
    &&& header[16] == 2 && header[17] == 0
}

/// Refuse a program the exec driver would run from a host mount when its
/// header (the first bytes of `host`, up to 18) says it is not a PIE.
pub fn check_pie_header(host: &str, header: &[u8]) -> (r: Result<(), String>)
    ensures
        r is Ok <==> !fixed_address(header@),
        r matches Err(m) ==> m@ == host@
            + " is not position-independent (ET_EXEC), and the guest's ELF loader needs a PIE. Build with -buildmode=pie (Go), -fPIE -static-pie (C), -C relocation-model=pie (Rust); .NET publishes one by default"@,
{
    if header.len() < 18 || header[0] != 0x7f || header[1] != 0x45 || header[2] != 0x4c || header[3]
        != 0x46 {
        return Ok(());
    }
    if header[16] == 2 && header[17] == 0 {
        let mut m = host.to_owned();
        push_str(&mut m, " is not position-independent (ET_EXEC), and the guest's ELF loader needs a PIE. Build with -buildmode=pie (Go), -fPIE -static-pie (C), -C relocation-model=pie (Rust); .NET publishes one by default");
        return Err(m);
    }
    Ok(())
}

/// Whole mebibytes a rootfs of `bytes` takes, rounded up.
pub open spec fn rootfs_mib(bytes: nat) -> nat {
    bytes / 1048576 + if bytes % 1048576 == 0 { 0nat } else { 1nat }
}

/// The least multiple of 256 that is at least `x`.
pub open spec fn next_multiple_256(x: nat) -> nat {
    (x / 256 + if x % 256 == 0 { 0nat } else { 1nat }) * 256
}

/// The rootfs is unpacked into the guest's memory, so one that takes more
/// than half of it leaves the runtime little: when it does, the note that
/// says so, with a `scratch_mb` that leaves room (four times the rootfs,
/// to a multiple of 256).
pub fn scratch_note(rootfs_bytes: u64, scratch_mb: u64) -> (r: Option<String>)
    ensures
        r is Some <==> rootfs_mib(rootfs_bytes as nat) * 2 > scratch_mb,
        r matches Some(m) ==> m@ == "note: the rootfs is "@ + crate::text::decimal(rootfs_mib(rootfs_bytes as nat))
            + " MiB and [run] scratch_mb = "@ + crate::text::decimal(scratch_mb as nat)
            + "; the rootfs is unpacked into that memory, so set scratch_mb to "@
            + crate::text::decimal(next_multiple_256(rootfs_mib(rootfs_bytes as nat) * 4))
            + " or more"@,
{
    let mb: u64 = rootfs_bytes / 1048576 + if rootfs_bytes % 1048576 == 0 { 0 } else { 1 };
    assert(mb <= 17592186044416);
    if mb * 2 <= scratch_mb {
        return None;
    }
    let x: u64 = mb * 4;
    let suggested: u64 = (x / 256 + if x % 256 == 0 { 0 } else { 1 }) * 256;
    let mut m = "note: the rootfs is ".to_owned();
    let d = crate::text::decimal_string(mb);
    push_str(&mut m, d.as_str());
    push_str(&mut m, " MiB and [run] scratch_mb = ");
    let d = crate::text::decimal_string(scratch_mb);
    push_str(&mut m, d.as_str());
    push_str(&mut m, "; the rootfs is unpacked into that memory, so set scratch_mb to ");
    let d = crate::text::decimal_string(suggested);
    push_str(&mut m, d.as_str());
    push_str(&mut m, " or more");
    Some(m)
}

/// The first position from `pos` on that is not white space (or the end).
pub open spec fn skip_ws(s: Seq<char>, pos: int) -> int
    decreases s.len() - pos,
{
    if pos < 0 || pos >= s.len() {
        s.len() as int
    } else if crate::text::is_space(s[pos]) {
        skip_ws(s, pos + 1)
    } else {
        pos
    }
}

/// The first position from `pos` on that is white space (or the end).
pub open spec fn word_end(s: Seq<char>, pos: int) -> int
    decreases s.len() - pos,
{
    if pos < 0 || pos >= s.len() {
        s.len() as int
    } else if crate::text::is_space(s[pos]) {
        pos
    } else {
        word_end(s, pos + 1)
    }
}

/// The words of `s` from `pos` on, as `str::split_whitespace` gives them.
pub open spec fn words_from(s: Seq<char>, pos: int) -> Seq<Seq<char>>
    decreases s.len() - pos,
{
    let st = skip_ws(s, pos);
    if pos < 0 || st >= s.len() || st < pos {
        seq![]
    } else {
        let e = word_end(s, st);
        if e <= st || e > s.len() {
            seq![]
        } else {
            seq![s.subrange(st, e)] + words_from(s, e)
        }
    }
}

/// The words of `s`.
pub open spec fn words(s: Seq<char>) -> Seq<Seq<char>> {
    words_from(s, 0)
}

proof fn lemma_skip_ws(s: Seq<char>, pos: int)
    requires
        0 <= pos <= s.len(),
    ensures
        pos <= skip_ws(s, pos) <= s.len(),
        skip_ws(s, pos) < s.len() ==> !crate::text::is_space(s[skip_ws(s, pos)]),
    decreases s.len() - pos,
{
    if pos < s.len() && crate::text::is_space(s[pos]) {
        lemma_skip_ws(s, pos + 1);
    }
}

proof fn lemma_word_end(s: Seq<char>, pos: int)
    requires
        0 <= pos < s.len(),
        !crate::text::is_space(s[pos]),
    ensures
        pos < word_end(s, pos) <= s.len(),
    decreases s.len() - pos,
{
    reveal_with_fuel(word_end, 2);
    if pos + 1 < s.len() && !crate::text::is_space(s[pos + 1]) {
        lemma_word_end(s, pos + 1);
    }
}

fn skip_spaces(v: &[char], pos: usize) -> (r: usize)
    requires
        pos <= v@.len(),
    ensures
        r == skip_ws(v@, pos as int),
{
    let mut i = pos;
    while i < v.len() && crate::text::is_whitespace(v[i])
        invariant
            pos <= i <= v@.len(),
            skip_ws(v@, pos as int) == skip_ws(v@, i as int),
        decreases v@.len() - i,
    {
        i += 1;
    }
    i
}

fn end_of_word(v: &[char], pos: usize) -> (r: usize)
    requires
        pos <= v@.len(),
    ensures
        r == word_end(v@, pos as int),
{
    let mut i = pos;
    while i < v.len() && !crate::text::is_whitespace(v[i])
        invariant
            pos <= i <= v@.len(),
            word_end(v@, pos as int) == word_end(v@, i as int),
        decreases v@.len() - i,
    {
        i += 1;
    }
    i
}

/// The next word of `v` from `pos` on, and where it ends; `None` when
/// only white space is left.
pub(crate) fn next_word(v: &[char], pos: usize) -> (r: Option<(usize, usize)>)
    requires
        pos <= v@.len(),
    ensures
        match r {
            Some((st, e)) => pos <= st < e <= v@.len() && words_from(v@, pos as int) == seq![
                v@.subrange(st as int, e as int),
            ] + words_from(v@, e as int),
            None => words_from(v@, pos as int) == Seq::<Seq<char>>::empty(),
        },
{
    let st = skip_spaces(v, pos);
    proof {
        lemma_skip_ws(v@, pos as int);
    }
    if st >= v.len() {
        return None;
    }
    let e = end_of_word(v, st);
    proof {
        lemma_word_end(v@, st as int);
    }
    Some((st, e))
}

/// A word with the `(` and `{` that open it dropped.
pub open spec fn trim_open(w: Seq<char>) -> Seq<char>
    decreases w.len(),
{
    if w.len() > 0 && (w[0] == '(' || w[0] == '{') {
        trim_open(w.skip(1))
    } else {
        w
    }
}

fn trim_open_of(w: &Vec<char>) -> (r: Vec<char>)
    ensures
        r@ == trim_open(w@),
{
    let mut i: usize = 0;
    assert(w@.skip(0) =~= w@);
    while i < w.len() && (w[i] == '(' || w[i] == '{')
        invariant
            i <= w@.len(),
            trim_open(w@) == trim_open(w@.skip(i as int)),
        decreases w@.len() - i,
    {
        assert(w@.skip(i as int).skip(1) =~= w@.skip(i + 1));
        i += 1;
    }
    let r = crate::text::slice_vec(w, i, w.len());
    assert(r@ =~= w@.skip(i as int));
    r
}

/// The first word that is not a `KEY=VALUE` assignment, its opening
/// brackets dropped.
pub open spec fn program_of(ws: Seq<Seq<char>>) -> Option<Seq<char>>
    decreases ws.len(),
{
    if ws.len() == 0 {
        None
    } else {
        let w = trim_open(ws[0]);
        if w.len() > 0 && !w.contains('=') {
            Some(w)
        } else {
            program_of(ws.skip(1))
        }
    }
}

/// Shell builtins and syntax a build command may start with, which no
/// PATH lookup would find.
pub open spec fn shell_builtin(p: Seq<char>) -> bool {
    ||| p == "cd"@ || p == "export"@ || p == "set"@ || p == "source"@ || p == "."@
    ||| p == "eval"@ || p == "exec"@ || p == "echo"@ || p == "true"@ || p == "false"@
    ||| p == "test"@ || p == "["@ || p == "if"@ || p == "for"@ || p == "while"@
    ||| p == "case"@ || p == "mkdir"@
}

fn is_shell_builtin(p: &str) -> (r: bool)
    ensures
        r == shell_builtin(p@),
{
    eq(p, "cd") || eq(p, "export") || eq(p, "set") || eq(p, "source") || eq(p, ".") || eq(p, "eval")
        || eq(p, "exec") || eq(p, "echo") || eq(p, "true") || eq(p, "false") || eq(p, "test")
        || eq(p, "[") || eq(p, "if") || eq(p, "for") || eq(p, "while") || eq(p, "case") || eq(
        p,
        "mkdir",
    )
}

/// The program a shell command line starts with, past any `KEY=VALUE`
/// assignments and grouping (`CGO_ENABLED=0 go build …` starts `go`);
/// `None` when there is none or it is the shell's own.
pub fn command_program(command: &str) -> (r: Option<String>)
    ensures
        match program_of(words(command@)) {
            Some(p) => if shell_builtin(p) {
                r is None
            } else {
                r matches Some(x) && x@ == p
            },
            None => r is None,
        },
{
    let v = chars_of(command);
    let mut pos: usize = 0;
    while pos < v.len()
        invariant
            pos <= v@.len(),
            v@ == command@,
            program_of(words(command@)) == program_of(words_from(v@, pos as int)),
        decreases v@.len() - pos,
    {
        match next_word(&v, pos) {
            Some((st, e)) => {
                let w = crate::text::slice_vec(&v, st, e);
                let t = trim_open_of(&w);
                let ghost ws = words_from(v@, pos as int);
                proof {
                    assert(ws[0] == w@);
                    assert(ws.skip(1) =~= words_from(v@, e as int));
                }
                if t.len() > 0 && !crate::text::contains_char(&t, '=') {
                    let p = string_of(&t);
                    if is_shell_builtin(p.as_str()) {
                        return None;
                    }
                    return Some(p);
                }
                pos = e;
            },
            None => {
                return None;
            },
        }
    }
    assert(words_from(v@, pos as int) =~= Seq::<Seq<char>>::empty());
    None
}

/// The first word of a command line, the program it runs.
pub fn first_word(command: &str) -> (r: Option<String>)
    ensures
        words(command@).len() == 0 ==> r is None,
        words(command@).len() > 0 ==> (r matches Some(x) && x@ == words(command@)[0]),
{
    let v = chars_of(command);
    match next_word(&v, 0) {
        Some((st, e)) => Some(string_of(&crate::text::slice_vec(&v, st, e))),
        None => None,
    }
}

/// Where hluk keeps what it pulls and builds, from the environment:
/// `HLUK_CACHE_DIR` as it is; else, on Windows, `hluk/cache` under
/// `LOCALAPPDATA`; else `hluk` under a non-empty `XDG_CACHE_HOME`; else
/// `.cache/hluk` under `HOME`.  `Err` when none of them is set.
pub open spec fn spec_cache_root(
    explicit: Option<Seq<char>>,
    windows: bool,
    local_app_data: Option<Seq<char>>,
    xdg_cache_home: Option<Seq<char>>,
    home: Option<Seq<char>>,
) -> Result<Seq<char>, Seq<char>> {
    match explicit {
        Some(d) => Ok(d),
        None => if windows {
            match local_app_data {
                Some(d) => Ok(spec_join(spec_join(d, "hluk"@), "cache"@)),
                None => Err("cannot find a cache directory: set HLUK_CACHE_DIR or LOCALAPPDATA"@),
            }
        } else {
            match xdg_cache_home {
                Some(d) if d.len() > 0 => Ok(spec_join(d, "hluk"@)),
                _ => match home {
                    Some(h) => Ok(spec_join(spec_join(h, ".cache"@), "hluk"@)),
                    None => Err("cannot find a cache directory: set HLUK_CACHE_DIR or HOME"@),
                },
            }
        },
    }
}

/// The cache directory the environment names (see [`spec_cache_root`]).
pub fn cache_root(
    explicit: Option<String>,
    windows: bool,
    local_app_data: Option<String>,
    xdg_cache_home: Option<String>,
    home: Option<String>,
) -> (r: Result<String, String>)
    ensures
        match spec_cache_root(
            crate::initrd::opt_text(explicit),
            windows,
            crate::initrd::opt_text(local_app_data),
            crate::initrd::opt_text(xdg_cache_home),
            crate::initrd::opt_text(home),
        ) {
            Ok(d) => r matches Ok(x) && x@ == d,
            Err(m) => r matches Err(x) && x@ == m,
        },
{
    if let Some(d) = explicit {
        return Ok(d);
    }
    if windows {
        return match local_app_data {
            Some(d) => Ok(join_path(join_path(d.as_str(), "hluk").as_str(), "cache")),
            None => Err("cannot find a cache directory: set HLUK_CACHE_DIR or LOCALAPPDATA".to_owned()),
        };
    }
    if let Some(d) = &xdg_cache_home {
        if !d.as_str().is_empty() {
            return Ok(join_path(d.as_str(), "hluk"));
        }
    }
    match home {
        Some(h) => Ok(join_path(join_path(h.as_str(), ".cache").as_str(), "hluk")),
        None => Err("cannot find a cache directory: set HLUK_CACHE_DIR or HOME".to_owned()),
    }
}

/// A character as a Docker tag keeps it: an ASCII letter lowered, a
/// digit, `-`, `_` or `.` as it is, anything else `-`.
pub open spec fn tag_char(c: char) -> char {
    if 'A' <= c && c <= 'Z' {
        ((c as u32) + 32) as char
    } else if ('a' <= c && c <= 'z') || crate::text::is_ascii_digit(c) || c == '-' || c == '_' || c == '.' {
        c
    } else {
        '-'
    }
}

/// The tag `hluk build` gives the image it builds for the app `name`:
/// `hluk-<name>-rootfs`, the name made fit for a tag.
pub open spec fn spec_docker_tag(name: Seq<char>) -> Seq<char> {
    "hluk-"@ + Seq::new(name.len(), |i: int| tag_char(name[i])) + "-rootfs"@
}

/// The tag of the image `hluk build` builds (see [`spec_docker_tag`]).
pub fn docker_tag(name: &str) -> (r: String)
    ensures
        r@ == spec_docker_tag(name@),
{
    let v = chars_of(name);
    let mut out = "hluk-".to_owned();
    let ghost head = out@;
    let mut i: usize = 0;
    while i < v.len()
        invariant
            i <= v@.len(),
            v@ == name@,
            out@ == head + Seq::new(i as nat, |k: int| tag_char(v@[k])),
        decreases v@.len() - i,
    {
        let c = v[i];
        let t = if 'A' <= c && c <= 'Z' {
            ((c as u32) + 32) as u8 as char
        } else if ('a' <= c && c <= 'z') || ('0' <= c && c <= '9') || c == '-' || c == '_' || c == '.' {
            c
        } else {
            '-'
        };
        proof {
            if 'A' <= c && c <= 'Z' {
                assert(((c as u32) + 32) as u8 as char == ((c as u32) + 32) as char);
            }
            assert(t == tag_char(v@[i as int]));
        }
        push_char(&mut out, t);
        assert(head + Seq::new((i + 1) as nat, |k: int| tag_char(v@[k])) =~= head + Seq::new(i as nat, |k: int| tag_char(v@[k])).push(t));
        i += 1;
    }
    push_str(&mut out, "-rootfs");
    assert(Seq::new(i as nat, |k: int| tag_char(v@[k])) =~= Seq::new(name@.len(), |k: int| tag_char(name@[k])));
    out
}

} // verus!
