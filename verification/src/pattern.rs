//! The small pattern language of field rules: `^` and `$` anchors, `.*` and
//! `.+` wildcards, literal text and the digit class `[0-9]` (with `+` or
//! `*`). It is matched without a regular-expression engine, by the rules
//! written out in `simple_match`.
use vstd::prelude::*;
use crate::numbers::all_digits;
use crate::text::{
    chars_of, contains, contains_seq, digits_of, is_ws, ends_with, ends_with_seq, find_seq,
    is_digit_char, non_digits_of, occurs_at, occurs_at_exec, replace_all, replace_seq, seq_eq,
    seq_is, split_digits, starts_with, starts_with_seq, trim, trim_str, vec_views,
};

verus! {

/// `str::split` with a non-empty separator: the pieces between the
/// non-overlapping occurrences of `p`, found from left to right.
pub open spec fn split_all(s: Seq<char>, p: Seq<char>) -> Seq<Seq<char>>
    decreases s.len(),
{
    if p.len() == 0 || s.len() < p.len() {
        seq![s]
    } else if s.subrange(0, p.len() as int) == p {
        seq![Seq::empty()] + split_all(s.skip(p.len() as int), p)
    } else {
        let rest = split_all(s.drop_first(), p);
        seq![seq![s[0]] + rest[0]] + rest.drop_first()
    }
}

/// The first index at or after `i` where `p` occurs in `s`.
pub open spec fn find_from(s: Seq<char>, p: Seq<char>, i: int) -> Option<int>
    decreases s.len() + 1 - i,
{
    if i > s.len() {
        None
    } else if occurs_at(s, p, i) {
        Some(i)
    } else {
        find_from(s, p, i + 1)
    }
}

/// Whether a wildcard (`.*` or `.+`) begins at index `i` of `s`.
pub open spec fn wild_at(s: Seq<char>, i: int) -> bool {
    0 <= i && i + 1 < s.len() && s[i] == '.' && (s[i + 1] == '*' || s[i + 1] == '+')
}

/// Reads `s` from index `i` on, splitting it at its wildcards from left to
/// right: `parts` are the literal pieces, `gaps[j]` the least number of
/// characters the wildcard after `parts[j]` stands for (0 for `.*`, 1 for
/// `.+`), and `cur` the piece being read.
pub open spec fn wild_scan(
    s: Seq<char>,
    i: int,
    cur: Seq<char>,
    parts: Seq<Seq<char>>,
    gaps: Seq<int>,
) -> (Seq<Seq<char>>, Seq<int>)
    decreases s.len() - i,
{
    if i < 0 || i >= s.len() {
        (parts.push(cur), gaps)
    } else if wild_at(s, i) {
        wild_scan(s, i + 2, Seq::empty(), parts.push(cur), gaps.push(if s[i + 1] == '+' { 1int } else { 0int }))
    } else {
        wild_scan(s, i + 1, cur.push(s[i]), parts, gaps)
    }
}

/// The literal pieces of a pattern between its wildcards.
pub open spec fn wild_parts(s: Seq<char>) -> Seq<Seq<char>> {
    wild_scan(s, 0, Seq::empty(), Seq::empty(), Seq::empty()).0
}

/// The least lengths of the wildcards of a pattern, in order.
pub open spec fn wild_gaps(s: Seq<char>) -> Seq<int> {
    wild_scan(s, 0, Seq::empty(), Seq::empty(), Seq::empty()).1
}

/// The pieces from `idx` on occur in `text` in order: each non-empty one
/// at its first occurrence at least its wildcard's least length after the
/// end of the previous one (from `start`), and a last wildcard has room
/// left at the end; with `anchored`, the first piece at the very start.
pub open spec fn pieces_gap(
    text: Seq<char>,
    parts: Seq<Seq<char>>,
    gaps: Seq<int>,
    idx: int,
    start: int,
    anchored: bool,
) -> bool
    decreases parts.len() - idx,
{
    if idx >= parts.len() || idx < 0 {
        true
    } else {
        let from = if idx == 0 { start } else { start + gaps[idx - 1] };
        if parts[idx].len() == 0 {
            from <= text.len() && pieces_gap(text, parts, gaps, idx + 1, from, anchored)
        } else {
            match find_from(text, parts[idx], from) {
                None => false,
                Some(pos) => if idx == 0 && anchored && pos != start {
                    false
                } else {
                    pieces_gap(text, parts, gaps, idx + 1, pos + parts[idx].len(), anchored)
                },
            }
        }
    }
}

pub open spec fn strip_first(p: Seq<char>, c: char) -> Seq<char> {
    if p.len() > 0 && p[0] == c {
        p.drop_first()
    } else {
        p
    }
}

pub open spec fn strip_last(p: Seq<char>, c: char) -> Seq<char> {
    if p.len() > 0 && p.last() == c {
        p.drop_last()
    } else {
        p
    }
}

/// The pattern without its anchors.
pub open spec fn pattern_core(p: Seq<char>) -> Seq<char> {
    strip_last(strip_first(p, '^'), '$')
}

/// The literal text of a pattern once its digit classes are taken out.
pub open spec fn digit_literals(core: Seq<char>) -> Seq<char> {
    replace_all(
        replace_all(replace_all(core, "[0-9]+"@, Seq::empty()), "[0-9]*"@, Seq::empty()),
        "[0-9]"@,
        Seq::empty(),
    )
}

/// Whether `text` satisfies `pattern`:
/// - a blank pattern or `.*` accepts everything, `.+` any non-empty text;
/// - a pattern with a digit class needs a digit when it is `[0-9]+`; with no
///   other literal text, it needs a non-empty text of digits only; anchored
///   at both ends, the literal text must begin or end the text or be all of
///   its non-digits; otherwise it must occur in the text;
/// - a pattern with wildcards (`.*` for any text, `.+` for one character
///   or more) needs its literal pieces in order, with at least one
///   character wherever a `.+` stands, the first piece at the start and the
///   last at the end where anchored;
/// - any other pattern is literal text: the whole text, a prefix, a suffix
///   or a substring, by its anchors.
pub open spec fn simple_match(pattern: Seq<char>, text: Seq<char>) -> bool {
    let p = trim(pattern);
    let a_s = p.len() > 0 && p[0] == '^';
    let a_e = p.len() > 0 && p.last() == '$';
    let core = pattern_core(p);
    if p.len() == 0 || p == ".*"@ {
        true
    } else if p == ".+"@ {
        text.len() > 0
    } else if contains(core, "[0-9]"@) {
        let lits = digit_literals(core);
        if contains(core, "[0-9]+"@) && digits_of(text).len() == 0 {
            false
        } else if lits.len() == 0 {
            all_digits(text) && text.len() > 0
        } else if a_s && a_e {
            starts_with(text, lits) || ends_with(text, lits) || non_digits_of(text) == lits
        } else {
            contains(text, lits)
        }
    } else if contains(core, ".*"@) || contains(core, ".+"@) {
        let parts = wild_parts(core);
        if a_s && !starts_with(text, parts[0]) {
            false
        } else if a_e && !ends_with(text, parts.last()) {
            false
        } else {
            pieces_gap(text, parts, wild_gaps(core), 0, 0, a_s)
        }
    } else if a_s && a_e {
        text == core
    } else if a_s {
        starts_with(text, core)
    } else if a_e {
        ends_with(text, core)
    } else {
        contains(text, core)
    }
}

proof fn lemma_split_nonempty(s: Seq<char>, p: Seq<char>)
    ensures
        split_all(s, p).len() >= 1,
    decreases s.len(),
{
    if p.len() == 0 || s.len() < p.len() {
    } else if s.subrange(0, p.len() as int) == p {
        lemma_split_nonempty(s.skip(p.len() as int), p);
    } else {
        lemma_split_nonempty(s.drop_first(), p);
    }
}

proof fn lemma_find_from_skip(s: Seq<char>, p: Seq<char>, start: int, i: int)
    requires
        start <= i,
        forall|j: int| start <= j < i ==> !occurs_at(s, p, j),
    ensures
        find_from(s, p, start) == find_from(s, p, i),
    decreases i - start,
{
    if start < i {
        lemma_find_from_skip(s, p, start + 1, i);
    }
}

/// `find_from` computed: the first occurrence at or after `start`.
fn find_from_exec(s: &Vec<char>, p: &Vec<char>, start: usize) -> (r: Option<usize>)
    requires
        start <= s.len(),
    ensures
        match r {
            Some(i) => find_from(s@, p@, start as int) == Some(i as int),
            None => find_from(s@, p@, start as int) is None,
        },
{
    match find_seq(s, p, start) {
        Some(i) => {
            proof {
                lemma_find_from_skip(s@, p@, start as int, i as int);
            }
            Some(i)
        },
        None => {
            proof {
                lemma_find_from_skip(s@, p@, start as int, s.len() + 1);
            }
            None
        },
    }
}

/// The pieces of `s` split at `p`.
pub fn split_text(s: &Vec<char>, p: &Vec<char>) -> (r: Vec<Vec<char>>)
    requires
        p.len() > 0,
    ensures
        vec_views(r@) == split_all(s@, p@),
{
    let mut pieces: Vec<Vec<char>> = Vec::new();
    let mut cur: Vec<char> = Vec::new();
    let mut i: usize = 0;
    proof {
        lemma_split_nonempty(s@, p@);
        let x = split_all(s@, p@);
        assert(s@.skip(0) =~= s@);
        assert(vec_views(pieces@) =~= Seq::<Seq<char>>::empty());
        assert(cur@ + x[0] =~= x[0]);
        assert(x =~= vec_views(pieces@) + seq![cur@ + x[0]] + x.drop_first());
    }
    while i < s.len()
        invariant
            i <= s.len(),
            p@.len() > 0,
            split_all(s@, p@) == vec_views(pieces@) + seq![cur@ + split_all(s@.skip(i as int), p@)[0]]
                + split_all(s@.skip(i as int), p@).drop_first(),
        decreases s.len() - i,
    {
        let ghost rest = s@.skip(i as int);
        proof {
            lemma_split_nonempty(rest, p@);
        }
        if occurs_at_exec(s, p, i) {
            assert(rest.subrange(0, p@.len() as int) =~= s@.subrange(i as int, i + p@.len()));
            assert(rest.skip(p@.len() as int) =~= s@.skip(i + p@.len()));
            proof {
                lemma_split_nonempty(s@.skip(i + p@.len()), p@);
            }
            let ghost before = pieces@;
            let done = cur;
            pieces.push(done);
            cur = Vec::new();
            i = i + p.len();
            assert(vec_views(pieces@) =~= vec_views(before).push(done@));
            assert(cur@ + split_all(s@.skip(i as int), p@)[0] =~= split_all(s@.skip(i as int), p@)[0]);
            assert(split_all(rest, p@) =~= seq![Seq::<char>::empty()] + split_all(s@.skip(i as int), p@));
            assert(split_all(s@, p@) =~= vec_views(pieces@) + seq![cur@ + split_all(s@.skip(i as int), p@)[0]]
                + split_all(s@.skip(i as int), p@).drop_first());
        } else {
            proof {
                if rest.len() >= p@.len() {
                    assert(rest.subrange(0, p@.len() as int) =~= s@.subrange(i as int, i + p@.len()));
                }
            }
            assert(rest.drop_first() =~= s@.skip(i + 1));
            proof {
                lemma_split_nonempty(s@.skip(i + 1), p@);
            }
            let ghost old_cur = cur@;
            cur.push(s[i]);
            i = i + 1;
            proof {
                if rest.len() < p@.len() {
                    assert(split_all(rest, p@) == seq![rest]);
                    assert(rest =~= seq![s@[i - 1]] + s@.skip(i as int));
                    assert(s@.skip(i as int).len() < p@.len());
                    assert(split_all(s@.skip(i as int), p@) == seq![s@.skip(i as int)]);
                }
            }
            assert(cur@ + split_all(s@.skip(i as int), p@)[0] =~= old_cur + split_all(rest, p@)[0]);
            assert(split_all(s@.skip(i as int), p@).drop_first() =~= split_all(rest, p@).drop_first());
        }
    }
    assert(s@.skip(i as int) =~= Seq::<char>::empty());
    assert(cur@ + Seq::<char>::empty() =~= cur@);
    pieces.push(cur);
    assert(vec_views(pieces@) =~= split_all(s@, p@));
    pieces
}

proof fn lemma_wild_scan_len(
    s: Seq<char>,
    i: int,
    cur: Seq<char>,
    parts: Seq<Seq<char>>,
    gaps: Seq<int>,
)
    requires
        gaps.len() == parts.len(),
        forall|j: int| 0 <= j < gaps.len() ==> 0 <= #[trigger] gaps[j] <= 1,
    ensures
        wild_scan(s, i, cur, parts, gaps).0.len() == wild_scan(s, i, cur, parts, gaps).1.len() + 1,
        forall|j: int|
            0 <= j < wild_scan(s, i, cur, parts, gaps).1.len() ==> 0 <= #[trigger] wild_scan(
                s,
                i,
                cur,
                parts,
                gaps,
            ).1[j] <= 1,
    decreases s.len() - i,
{
    if i < 0 || i >= s.len() {
    } else if wild_at(s, i) {
        let g = if s[i + 1] == '+' { 1int } else { 0int };
        assert forall|j: int| 0 <= j < gaps.push(g).len() implies 0 <= #[trigger] gaps.push(g)[j] <= 1 by {
            if j < gaps.len() {
                assert(gaps.push(g)[j] == gaps[j]);
            }
        }
        lemma_wild_scan_len(s, i + 2, Seq::empty(), parts.push(cur), gaps.push(g));
    } else {
        lemma_wild_scan_len(s, i + 1, cur.push(s[i]), parts, gaps);
    }
}

/// The literal pieces of a pattern and the least lengths of its wildcards.
fn wild_split(s: &Vec<char>) -> (r: (Vec<Vec<char>>, Vec<usize>))
    ensures
        vec_views(r.0@) == wild_parts(s@),
        int_gaps(r.1@) == wild_gaps(s@),
        forall|j: int| 0 <= j < r.1@.len() ==> #[trigger] r.1@[j] <= 1,
        r.0@.len() == r.1@.len() + 1,
{
    let mut parts: Vec<Vec<char>> = Vec::new();
    let mut gaps: Vec<usize> = Vec::new();
    let mut cur: Vec<char> = Vec::new();
    let mut i: usize = 0;
    let ghost gs = Seq::<int>::empty();
    proof {
        assert(vec_views(parts@) =~= Seq::<Seq<char>>::empty());
        assert(cur@ =~= Seq::<char>::empty());
    }
    while i < s.len()
        invariant
            i <= s.len(),
            wild_scan(s@, 0, Seq::empty(), Seq::empty(), Seq::empty()) == wild_scan(
                s@,
                i as int,
                cur@,
                vec_views(parts@),
                gs,
            ),
            gs.len() == gaps@.len(),
            gaps@.len() == parts@.len(),
            forall|j: int| 0 <= j < gs.len() ==> gs[j] == gaps@[j] as int && #[trigger] gaps@[j] <= 1,
        decreases s.len() - i,
    {
        if i + 1 < s.len() && s[i] == '.' && (s[i + 1] == '*' || s[i + 1] == '+') {
            let g: usize = if s[i + 1] == '+' { 1 } else { 0 };
            let ghost before = parts@;
            let done = cur;
            parts.push(done);
            gaps.push(g);
            proof {
                assert(vec_views(parts@) =~= vec_views(before).push(done@));
                gs = gs.push(g as int);
            }
            cur = Vec::new();
            assert(cur@ =~= Seq::<char>::empty());
            i = i + 2;
        } else {
            cur.push(s[i]);
            i = i + 1;
        }
    }
    let ghost before = parts@;
    let done = cur;
    parts.push(done);
    proof {
        assert(vec_views(parts@) =~= vec_views(before).push(done@));
        lemma_wild_scan_len(s@, 0, Seq::empty(), Seq::empty(), Seq::empty());
        assert(int_gaps(gaps@) =~= gs);
    }
    (parts, gaps)
}

/// Checks the pieces with their wildcards' least lengths (see `pieces_gap`).
fn pieces_gap_exec(text: &Vec<char>, parts: &Vec<Vec<char>>, gaps: &Vec<usize>, anchored: bool) -> (r: bool)
    requires
        parts@.len() == gaps@.len() + 1,
        forall|j: int| 0 <= j < gaps@.len() ==> #[trigger] gaps@[j] <= 1,
    ensures
        r == pieces_gap(text@, vec_views(parts@), int_gaps(gaps@), 0, 0, anchored),
{
    let ghost g = int_gaps(gaps@);
    let mut idx: usize = 0;
    let mut start: usize = 0;
    while idx < parts.len()
        invariant
            idx <= parts.len(),
            parts@.len() == gaps@.len() + 1,
            forall|j: int| 0 <= j < gaps@.len() ==> #[trigger] gaps@[j] <= 1,
            g == int_gaps(gaps@),
            g.len() == gaps@.len(),
            forall|j: int| 0 <= j < g.len() ==> g[j] == #[trigger] gaps@[j] as int,
            start <= text.len(),
            pieces_gap(text@, vec_views(parts@), g, 0, 0, anchored) == pieces_gap(
                text@,
                vec_views(parts@),
                g,
                idx as int,
                start as int,
                anchored,
            ),
            idx == 0 ==> start == 0,
        decreases parts.len() - idx,
    {
        assert(vec_views(parts@)[idx as int] == parts@[idx as int]@);
        assert(vec_views(parts@).len() == parts@.len());
        let gap: usize = if idx == 0 { 0 } else { gaps[idx - 1] };
        assert(idx > 0 ==> g[idx - 1] == gap as int);
        if gap > text.len() - start {
            return false;
        }
        let from: usize = start + gap;
        if parts[idx].len() == 0 {
            start = from;
            idx += 1;
        } else {
            match find_from_exec(text, &parts[idx], from) {
                None => {
                    assert(find_from(text@, vec_views(parts@)[idx as int], from as int) is None);
                    return false;
                },
                Some(pos) => {
                    if idx == 0 && anchored && pos != start {
                        return false;
                    }
                    assert(occurs_at(text@, parts@[idx as int]@, pos as int)) by {
                        lemma_find_occurs(text@, parts@[idx as int]@, from as int);
                    }
                    start = pos + parts[idx].len();
                    idx += 1;
                },
            }
        }
    }
    true
}

/// Gap lengths as integers.
pub open spec fn int_gaps(g: Seq<usize>) -> Seq<int> {
    g.map_values(|x: usize| x as int)
}

proof fn lemma_find_occurs(s: Seq<char>, p: Seq<char>, i: int)
    ensures
        find_from(s, p, i) matches Some(j) ==> i <= j && occurs_at(s, p, j),
    decreases s.len() + 1 - i,
{
    if i <= s.len() && !occurs_at(s, p, i) {
        lemma_find_occurs(s, p, i + 1);
    }
}

fn strip_first_exec(p: &Vec<char>, c: char) -> (r: Vec<char>)
    ensures
        r@ == strip_first(p@, c),
{
    if p.len() > 0 && p[0] == c {
        crate::text::slice_chars(p, 1, p.len())
    } else {
        p.clone()
    }
}

fn strip_last_exec(p: &Vec<char>, c: char) -> (r: Vec<char>)
    ensures
        r@ == strip_last(p@, c),
{
    if p.len() > 0 && p[p.len() - 1] == c {
        crate::text::slice_chars(p, 0, p.len() - 1)
    } else {
        p.clone()
    }
}

fn all_digits_exec(v: &Vec<char>) -> (r: bool)
    ensures
        r == all_digits(v@),
{
    let mut i: usize = 0;
    while i < v.len()
        invariant
            i <= v.len(),
            forall|k: int| 0 <= k < i ==> crate::text::is_digit(#[trigger] v@[k]),
        decreases v.len() - i,
    {
        if !is_digit_char(v[i]) {
            return false;
        }
        i += 1;
    }
    true
}

/// Whether `text` satisfies the field-rule `pattern` (see `simple_match`).
pub fn matches_simple_pattern(pattern: &str, text: &str) -> (r: bool)
    ensures
        r == simple_match(pattern@, text@),
{
    proof {
        reveal_strlit("[0-9]");
        reveal_strlit("[0-9]+");
        reveal_strlit("[0-9]*");
        reveal_strlit(".*");
        reveal_strlit(".+");
    }
    let p = trim_str(pattern);
    let t = chars_of(text);
    if p.len() == 0 || seq_is(&p, ".*") {
        return true;
    }
    if seq_is(&p, ".+") {
        return t.len() > 0;
    }
    let a_s = p.len() > 0 && p[0] == '^';
    let a_e = p.len() > 0 && p[p.len() - 1] == '$';
    let core = strip_last_exec(&strip_first_exec(&p, '^'), '$');
    let class = chars_of("[0-9]");
    let class_plus = chars_of("[0-9]+");
    let class_star = chars_of("[0-9]*");
    if contains_seq(&core, &class) {
        let empty: Vec<char> = Vec::new();
        let lits = replace_seq(&replace_seq(&replace_seq(&core, &class_plus, &empty), &class_star, &empty), &class, &empty);
        assert(empty@ =~= Seq::<char>::empty());
        let (digits, others) = split_digits(&t);
        if contains_seq(&core, &class_plus) && digits.len() == 0 {
            return false;
        }
        if lits.len() == 0 {
            return all_digits_exec(&t) && t.len() > 0;
        }
        if a_s && a_e {
            return starts_with_seq(&t, &lits) || ends_with_seq(&t, &lits) || seq_eq(&others, &lits);
        }
        return contains_seq(&t, &lits);
    }
    if contains_seq(&core, &chars_of(".*")) || contains_seq(&core, &chars_of(".+")) {
        let (parts, gaps) = wild_split(&core);
        assert(vec_views(parts@)[0] == parts@[0]@);
        assert(vec_views(parts@).last() == parts@[parts.len() - 1]@);
        if a_s && !starts_with_seq(&t, &parts[0]) {
            return false;
        }
        if a_e && !ends_with_seq(&t, &parts[parts.len() - 1]) {
            return false;
        }
        return pieces_gap_exec(&t, &parts, &gaps, a_s);
    }
    if a_s && a_e {
        return seq_eq(&t, &core);
    }
    if a_s {
        return starts_with_seq(&t, &core);
    }
    if a_e {
        return ends_with_seq(&t, &core);
    }
    contains_seq(&t, &core)
}

proof fn lemma_trim_unchanged(s: Seq<char>)
    requires
        s.len() > 0,
        !is_ws(s[0]),
        !is_ws(s.last()),
    ensures
        trim(s) == s,
{
    assert(crate::text::trim_start(s) == s);
    assert(crate::text::trim_end(s) == s);
}

/// Plain text in a pattern: no wildcard and no digit class.
pub open spec fn literal_text(lit: Seq<char>) -> bool {
    !contains(lit, ".*"@) && !contains(lit, ".+"@) && !contains(lit, "[0-9]"@)
}

/// Literal text followed by `$` accepts exactly the texts that end with it.
pub proof fn lemma_suffix_pattern(lit: Seq<char>, text: Seq<char>)
    requires
        literal_text(lit),
        lit.len() == 0 || (lit[0] != '^' && !is_ws(lit[0])),
    ensures
        simple_match(lit + seq!['$'], text) == ends_with(text, lit),
{
    reveal_strlit(".*");
    reveal_strlit(".+");
    let p = lit + seq!['$'];
    assert(p.last() == '$');
    assert(p[0] == if lit.len() == 0 { '$' } else { lit[0] });
    lemma_trim_unchanged(p);
    assert(p != ".*"@ && p != ".+"@) by {
        if p == ".*"@ || p == ".+"@ {
            assert(p[1] == '*' || p[1] == '+');
        }
    }
    assert(strip_first(p, '^') == p);
    assert(p.drop_last() =~= lit);
    assert(pattern_core(p) == lit);
}

/// `^` followed by literal text accepts exactly the texts that begin with it.
pub proof fn lemma_prefix_pattern(lit: Seq<char>, text: Seq<char>)
    requires
        literal_text(lit),
        lit.len() == 0 || (lit.last() != '$' && !is_ws(lit.last())),
    ensures
        simple_match(seq!['^'] + lit, text) == starts_with(text, lit),
{
    reveal_strlit(".*");
    reveal_strlit(".+");
    let p = seq!['^'] + lit;
    assert(p[0] == '^');
    assert(p.last() == if lit.len() == 0 { '^' } else { lit.last() });
    lemma_trim_unchanged(p);
    assert(p != ".*"@ && p != ".+"@) by {
        if p == ".*"@ || p == ".+"@ {
            assert(p[0] == '.');
        }
    }
    assert(p.drop_first() =~= lit);
    assert(strip_first(p, '^') == lit);
    assert(pattern_core(p) == lit);
}

/// Literal text without anchors accepts exactly the texts that hold it.
pub proof fn lemma_substring_pattern(lit: Seq<char>, text: Seq<char>)
    requires
        literal_text(lit),
        lit.len() > 0,
        lit[0] != '^' && !is_ws(lit[0]),
        lit.last() != '$' && !is_ws(lit.last()),
    ensures
        simple_match(lit, text) == contains(text, lit),
{
    reveal_strlit(".*");
    reveal_strlit(".+");
    lemma_trim_unchanged(lit);
    assert(lit != ".*"@ && lit != ".+"@) by {
        if lit == ".*"@ {
            assert(contains(lit, ".*"@)) by {
                assert(lit.subrange(0, 2) =~= ".*"@);
                assert(crate::text::occurs_at(lit, ".*"@, 0));
            }
        }
        if lit == ".+"@ {
            assert(contains(lit, ".+"@)) by {
                assert(lit.subrange(0, 2) =~= ".+"@);
                assert(crate::text::occurs_at(lit, ".+"@, 0));
            }
        }
    }
    assert(pattern_core(lit) == lit);
}

} // verus!
