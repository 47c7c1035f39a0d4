//! The map's text format: lines, words, route tokens and direction names.
use crate::direction::Direction;
use vstd::prelude::*;

verus! {

/// Splits lines.
pub const LINES: u8 = 0;
/// Splits words: spaces, tabs and carriage returns.
pub const BLANKS: u8 = 1;
/// Splits a route token into direction and destination.
pub const EQUALS: u8 = 2;

pub open spec fn is_sep(c: char, mode: u8) -> bool {
    if mode == LINES {
        c == '\n'
    } else if mode == BLANKS {
        c == ' ' || c == '\t' || c == '\r'
    } else {
        c == '='
    }
}

/// The pieces of `s` between separators, empty pieces included: `n`
/// separators give `n + 1` pieces.
pub open spec fn split_by(s: Seq<char>, mode: u8) -> Seq<Seq<char>>
    decreases s.len(),
{
    if s.len() == 0 {
        seq![Seq::empty()]
    } else {
        let r = split_by(s.drop_last(), mode);
        if is_sep(s.last(), mode) {
            r.push(Seq::empty())
        } else {
            r.update(r.len() - 1, r.last().push(s.last()))
        }
    }
}

/// The pieces that are not empty, in order.
pub open spec fn non_empty(ps: Seq<Seq<char>>) -> Seq<Seq<char>>
    decreases ps.len(),
{
    if ps.len() == 0 {
        ps
    } else if ps.last().len() == 0 {
        non_empty(ps.drop_last())
    } else {
        non_empty(ps.drop_last()).push(ps.last())
    }
}

/// The words of a line.
pub open spec fn words(line: Seq<char>) -> Seq<Seq<char>> {
    non_empty(split_by(line, BLANKS))
}

/// `c` is the lower-case ASCII letter `lower` in either case.
pub open spec fn letter_matches(c: char, lower: char) -> bool {
    c == lower || (c as u32) + 32 == (lower as u32)
}

/// `w` spells the lower-case word `word`, ignoring ASCII case.
pub open spec fn spells(w: Seq<char>, word: Seq<char>) -> bool {
    w.len() == word.len() && forall|i: int| 0 <= i < w.len() ==> letter_matches(#[trigger] w[i], word[i])
}

/// The direction that `w` names, in any case, if any.
pub open spec fn direction_named(w: Seq<char>) -> Option<Direction> {
    if spells(w, seq!['n', 'o', 'r', 't', 'h']) {
        Some(Direction::North)
    } else if spells(w, seq!['s', 'o', 'u', 't', 'h']) {
        Some(Direction::South)
    } else if spells(w, seq!['e', 'a', 's', 't']) {
        Some(Direction::East)
    } else if spells(w, seq!['w', 'e', 's', 't']) {
        Some(Direction::West)
    } else {
        None
    }
}

/// No character of `s` is a separator of the given kind.
pub open spec fn free_of(s: Seq<char>, mode: u8) -> bool {
    forall|i: int| 0 <= i < s.len() ==> !is_sep(#[trigger] s[i], mode)
}

/// Text without separators is a single piece.
pub proof fn lemma_split_plain(s: Seq<char>, mode: u8)
    requires
        free_of(s, mode),
    ensures
        split_by(s, mode) == seq![s],
    decreases s.len(),
{
    if s.len() == 0 {
        assert(s =~= Seq::<char>::empty());
    } else {
        let p = s.drop_last();
        assert(free_of(p, mode)) by {
            assert forall|i: int| 0 <= i < p.len() implies !is_sep(#[trigger] p[i], mode) by {
                assert(p[i] == s[i]);
            }
        }
        lemma_split_plain(p, mode);
        assert(!is_sep(s[s.len() - 1], mode));
        assert(p.push(s.last()) =~= s);
        assert(seq![p].update(0, p.push(s.last())) =~= seq![s]);
    }
}

/// Two separator-free pieces joined by one separator split back into them.
pub proof fn lemma_split_pair(x: Seq<char>, c: char, y: Seq<char>, mode: u8)
    requires
        free_of(x, mode),
        free_of(y, mode),
        is_sep(c, mode),
    ensures
        split_by(x + seq![c] + y, mode) == seq![x, y],
    decreases y.len(),
{
    let s = x + seq![c] + y;
    if y.len() == 0 {
        assert(s.drop_last() =~= x);
        assert(s.last() == c);
        lemma_split_plain(x, mode);
        assert(y =~= Seq::<char>::empty());
        assert(seq![x].push(Seq::<char>::empty()) =~= seq![x, y]);
    } else {
        let yp = y.drop_last();
        assert(free_of(yp, mode)) by {
            assert forall|i: int| 0 <= i < yp.len() implies !is_sep(#[trigger] yp[i], mode) by {
                assert(yp[i] == y[i]);
            }
        }
        lemma_split_pair(x, c, yp, mode);
        assert(s.drop_last() =~= x + seq![c] + yp);
        assert(s.last() == y[y.len() - 1]);
        assert(yp.push(s.last()) =~= y);
        assert(seq![x, yp].update(1, yp.push(s.last())) =~= seq![x, y]);
    }
}

fn is_separator(c: char, mode: u8) -> (r: bool)
    ensures
        r == is_sep(c, mode),
{
    if mode == LINES {
        c == '\n'
    } else if mode == BLANKS {
        c == ' ' || c == '\t' || c == '\r'
    } else {
        c == '='
    }
}

/// The characters of `s`, in order.
pub fn chars_of(s: &str) -> (r: Vec<char>)
    ensures
        r@ == s@,
{
    broadcast use vstd::string::group_string_axioms;
    let mut r: Vec<char> = Vec::new();
    for c in it: s.chars()
        invariant
            r@ == it.seq().take(it.index() as int),
    {
        r.push(c);
        assert(r@ =~= it.seq().take(it.index() as int + 1));
    }
    assert(r@ =~= s@);
    r
}

/// The pieces of `s` between separators of the given kind.
pub fn split(s: &Vec<char>, mode: u8) -> (r: Vec<Vec<char>>)
    ensures
        r@.map_values(|v: Vec<char>| v@) == split_by(s@, mode),
{
    let mut done: Vec<Vec<char>> = Vec::new();
    let mut cur: Vec<char> = Vec::new();
    let mut i: usize = 0;
    while i < s.len()
        invariant
            i <= s@.len(),
            done@.map_values(|v: Vec<char>| v@).push(cur@) == split_by(s@.take(i as int), mode),
        decreases s@.len() - i,
    {
        let ghost prev = done@.map_values(|v: Vec<char>| v@).push(cur@);
        assert(s@.take(i as int + 1).drop_last() =~= s@.take(i as int));
        assert(s@.take(i as int + 1).last() == s@[i as int]);
        let c = s[i];
        if is_separator(c, mode) {
            let piece = cur;
            done.push(piece);
            cur = Vec::new();
            assert(done@.map_values(|v: Vec<char>| v@).push(cur@) =~= prev.push(Seq::empty()));
        } else {
            cur.push(c);
            assert(done@.map_values(|v: Vec<char>| v@).push(cur@) =~= prev.update(prev.len() - 1, prev.last().push(c)));
        }
        i = i + 1;
    }
    assert(s@.take(i as int) =~= s@);
    let ghost prev = done@.map_values(|v: Vec<char>| v@);
    done.push(cur);
    assert(done@.map_values(|v: Vec<char>| v@) =~= prev.push(cur@));
    done
}

/// A copy of `v`.
pub fn copy_chars(v: &Vec<char>) -> (r: Vec<char>)
    ensures
        r@ == v@,
{
    let mut r: Vec<char> = Vec::new();
    let mut i: usize = 0;
    while i < v.len()
        invariant
            i <= v@.len(),
            r@ == v@.take(i as int),
        decreases v@.len() - i,
    {
        r.push(v[i]);
        i = i + 1;
        assert(r@ =~= v@.take(i as int));
    }
    assert(v@.take(i as int) =~= v@);
    r
}

/// The pieces that are not empty.
pub fn keep_non_empty(ps: &Vec<Vec<char>>) -> (r: Vec<Vec<char>>)
    ensures
        r@.map_values(|v: Vec<char>| v@) == non_empty(ps@.map_values(|v: Vec<char>| v@)),
{
    let ghost all = ps@.map_values(|v: Vec<char>| v@);
    let mut r: Vec<Vec<char>> = Vec::new();
    let mut i: usize = 0;
    while i < ps.len()
        invariant
            i <= ps@.len(),
            all == ps@.map_values(|v: Vec<char>| v@),
            r@.map_values(|v: Vec<char>| v@) == non_empty(all.take(i as int)),
        decreases ps@.len() - i,
    {
        assert(all.take(i as int + 1).drop_last() =~= all.take(i as int));
        assert(all.take(i as int + 1).last() == ps@[i as int]@);
        if ps[i].len() > 0 {
            let p = copy_chars(&ps[i]);
            let ghost before = r@.map_values(|v: Vec<char>| v@);
            r.push(p);
            assert(r@.map_values(|v: Vec<char>| v@) =~= before.push(ps@[i as int]@));
        }
        i = i + 1;
    }
    assert(all.take(i as int) =~= all);
    r
}

fn letter_is(c: char, lower: char) -> (r: bool)
    ensures
        r == letter_matches(c, lower),
{
    c == lower || (c as u32) as u64 + 32 == (lower as u32) as u64
}

/// Whether `w` spells `word`, ignoring ASCII case.
fn spells_word(w: &Vec<char>, word: &Vec<char>) -> (r: bool)
    ensures
        r == spells(w@, word@),
{
    if w.len() != word.len() {
        return false;
    }
    let mut i: usize = 0;
    while i < w.len()
        invariant
            i <= w@.len(),
            w@.len() == word@.len(),
            forall|k: int| 0 <= k < i ==> letter_matches(#[trigger] w@[k], word@[k]),
        decreases w@.len() - i,
    {
        if !letter_is(w[i], word[i]) {
            return false;
        }
        i = i + 1;
    }
    true
}

/// The direction that `w` names, in any case, if any.
pub fn direction_of(w: &Vec<char>) -> (r: Option<Direction>)
    ensures
        r == direction_named(w@),
{
    let north = vec!['n', 'o', 'r', 't', 'h'];
    let south = vec!['s', 'o', 'u', 't', 'h'];
    let east = vec!['e', 'a', 's', 't'];
    let west = vec!['w', 'e', 's', 't'];
    assert(north@ =~= seq!['n', 'o', 'r', 't', 'h']);
    assert(south@ =~= seq!['s', 'o', 'u', 't', 'h']);
    assert(east@ =~= seq!['e', 'a', 's', 't']);
    assert(west@ =~= seq!['w', 'e', 's', 't']);
    if spells_word(w, &north) {
        Some(Direction::North)
    } else if spells_word(w, &south) {
        Some(Direction::South)
    } else if spells_word(w, &east) {
        Some(Direction::East)
    } else if spells_word(w, &west) {
        Some(Direction::West)
    } else {
        None
    }
}

} // verus!
