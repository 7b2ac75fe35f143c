//! Text normal form: white space (full-width included) trimmed and collapsed,
//! character references replaced.

use vstd::prelude::*;

verus! {

/// The characters that count as white space when cell and label text is
/// compared: ASCII blanks, the no-break space and the full-width ideographic
/// space.
pub open spec fn is_ws(c: char) -> bool {
    c == ' ' || c == '\t' || c == '\n' || c == '\r' || c == '\u{0c}' || c == '\u{a0}'
        || c == '\u{3000}'
}

/// One step of `squash`: a white space character only sets the flag; any
/// other character is kept, after one space if the flag is set and something
/// was kept before.
pub open spec fn sq_step(p: (Seq<char>, bool), c: char) -> (Seq<char>, bool) {
    if is_ws(c) {
        (p.0, true)
    } else if p.1 && p.0.len() > 0 {
        (p.0.push(' ').push(c), false)
    } else {
        (p.0.push(c), false)
    }
}

/// Left fold that collapses every run of white space into one ASCII space and
/// drops leading white space. The flag says that white space was seen since
/// the last kept character; it is how trailing white space gets dropped.
pub open spec fn squash(s: Seq<char>) -> (Seq<char>, bool)
    decreases s.len(),
{
    if s.len() == 0 {
        (Seq::empty(), false)
    } else {
        sq_step(squash(s.drop_last()), s.last())
    }
}

/// `squash` continued from state `st` over the characters of `t`.
pub open spec fn sq_run(st: (Seq<char>, bool), t: Seq<char>) -> (Seq<char>, bool)
    decreases t.len(),
{
    if t.len() == 0 {
        st
    } else {
        sq_step(sq_run(st, t.drop_last()), t.last())
    }
}

/// Two fold states that agree on the kept text, and on the flag once some
/// text is kept, lead to the same normal form.
pub open spec fn sq_equiv(a: (Seq<char>, bool), b: (Seq<char>, bool)) -> bool {
    a.0 == b.0 && (a.0.len() > 0 ==> a.1 == b.1)
}

pub proof fn lemma_squash_concat(s: Seq<char>, t: Seq<char>)
    ensures
        squash(s + t) == sq_run(squash(s), t),
    decreases t.len(),
{
    if t.len() == 0 {
        assert(s + t =~= s);
    } else {
        lemma_squash_concat(s, t.drop_last());
        assert((s + t).drop_last() =~= s + t.drop_last());
        assert((s + t).last() == t.last());
    }
}

pub proof fn lemma_run_equiv(a: (Seq<char>, bool), b: (Seq<char>, bool), t: Seq<char>)
    requires
        sq_equiv(a, b),
    ensures
        sq_equiv(sq_run(a, t), sq_run(b, t)),
    decreases t.len(),
{
    if t.len() > 0 {
        lemma_run_equiv(a, b, t.drop_last());
    }
}

pub proof fn lemma_run_blank(st: (Seq<char>, bool), w: Seq<char>)
    requires
        forall|i: int| 0 <= i < w.len() ==> is_ws(#[trigger] w[i]),
    ensures
        sq_run(st, w).0 == st.0,
    decreases w.len(),
{
    if w.len() > 0 {
        lemma_run_blank(st, w.drop_last());
        assert(is_ws(w[w.len() - 1]));
    }
}

/// The normal form of a text: trimmed, with inner white space runs as one space.
pub open spec fn norm(s: Seq<char>) -> Seq<char> {
    squash(s).0
}

pub fn ws_char(c: char) -> (r: bool)
    ensures
        r == is_ws(c),
{
    c == ' ' || c == '\t' || c == '\n' || c == '\r' || c == '\u{0c}' || c == '\u{a0}'
        || c == '\u{3000}'
}

/// Trims a text and collapses its inner white space (full-width included).
pub fn normalize(s: &[char]) -> (r: Vec<char>)
    ensures
        r@ == norm(s@),
{
    let mut out: Vec<char> = Vec::new();
    let mut pending = false;
    let mut i: usize = 0;
    while i < s.len()
        invariant
            i <= s.len(),
            (out@, pending) == squash(s@.take(i as int)),
        decreases s.len() - i,
    {
        assert(s@.take(i as int + 1).drop_last() == s@.take(i as int));
        let c = s[i];
        assert(s@.take(i as int + 1).last() == c);
        if ws_char(c) {
            pending = true;
        } else {
            if pending && out.len() > 0 {
                out.push(' ');
            }
            out.push(c);
            pending = false;
        }
        i = i + 1;
    }
    assert(s@.take(s@.len() as int) == s@);
    out
}

/// Copies the characters of a string into a vector.
pub fn chars_of(s: &str) -> (r: Vec<char>)
    ensures
        r@ == s@,
{
    let n = s.unicode_len();
    let mut out: Vec<char> = Vec::new();
    let mut i: usize = 0;
    while i < n
        invariant
            i <= n,
            n == s@.len(),
            out@ == s@.take(i as int),
        decreases n - i,
    {
        out.push(s.get_char(i));
        i = i + 1;
        assert(out@ =~= s@.take(i as int));
    }
    assert(s@.take(n as int) =~= s@);
    out
}

/// A copy of a character slice.
pub fn copy_chars(s: &[char]) -> (r: Vec<char>)
    ensures
        r@ == s@,
{
    let mut out: Vec<char> = Vec::new();
    let mut i: usize = 0;
    while i < s.len()
        invariant
            i <= s@.len(),
            out@ == s@.take(i as int),
        decreases s@.len() - i,
    {
        out.push(s[i]);
        i = i + 1;
        assert(out@ =~= s@.take(i as int));
    }
    assert(s@.take(s@.len() as int) =~= s@);
    out
}

/// Whether a character slice holds exactly the characters of a string.
pub fn same_text(a: &[char], b: &str) -> (r: bool)
    ensures
        r == (a@ == b@),
{
    let n = b.unicode_len();
    if a.len() != n {
        return false;
    }
    let mut i: usize = 0;
    while i < n
        invariant
            i <= n == a@.len() == b@.len(),
            forall|k: int| 0 <= k < i ==> a@[k] == b@[k],
        decreases n - i,
    {
        if a[i] != b.get_char(i) {
            return false;
        }
        i = i + 1;
    }
    assert(a@ =~= b@);
    true
}

/// The character references that cell text may use, with the character each
/// stands for.
pub open spec fn entities() -> Seq<(Seq<char>, char)> {
    seq![
        (seq!['&', 'n', 'b', 's', 'p', ';'], '\u{a0}'),
        (seq!['&', 'a', 'm', 'p', ';'], '&'),
        (seq!['&', 'l', 't', ';'], '<'),
        (seq!['&', 'g', 't', ';'], '>'),
        (seq!['&', 'q', 'u', 'o', 't', ';'], '"'),
        (seq!['&', 'y', 'e', 'n', ';'], '\u{a5}'),
    ]
}

pub open spec fn entity_at(s: Seq<char>, i: int, e: Seq<char>) -> bool {
    0 <= i && i + e.len() <= s.len() && s.subrange(i, i + e.len()) == e
}

/// Index of the first reference, from `k` on in `entities()`, that starts at `i`.
pub open spec fn entity_from(s: Seq<char>, i: int, k: int) -> Option<int>
    decreases entities().len() - k,
{
    if k < 0 || k >= entities().len() {
        None
    } else if entity_at(s, i, entities()[k].0) {
        Some(k)
    } else {
        entity_from(s, i, k + 1)
    }
}

/// The text with each character reference replaced by its character; an `&`
/// that starts no known reference stays as it is.
pub open spec fn decode_from(s: Seq<char>, i: int) -> Seq<char>
    decreases s.len() - i,
{
    if i < 0 || i >= s.len() {
        Seq::empty()
    } else {
        match entity_from(s, i, 0) {
            Some(k) => if 0 <= k < entities().len() && entities()[k].0.len() > 0 && i
                + entities()[k].0.len() <= s.len() {
                seq![entities()[k].1] + decode_from(s, i + entities()[k].0.len())
            } else {
                seq![s[i]] + decode_from(s, i + 1)
            },
            None => seq![s[i]] + decode_from(s, i + 1),
        }
    }
}

pub open spec fn decode(s: Seq<char>) -> Seq<char> {
    decode_from(s, 0)
}

fn reference(k: usize) -> (r: (Vec<char>, char))
    requires
        k < 6,
    ensures
        r.0@ == entities()[k as int].0,
        r.1 == entities()[k as int].1,
{
    let r = if k == 0 {
        (vec!['&', 'n', 'b', 's', 'p', ';'], '\u{a0}')
    } else if k == 1 {
        (vec!['&', 'a', 'm', 'p', ';'], '&')
    } else if k == 2 {
        (vec!['&', 'l', 't', ';'], '<')
    } else if k == 3 {
        (vec!['&', 'g', 't', ';'], '>')
    } else if k == 4 {
        (vec!['&', 'q', 'u', 'o', 't', ';'], '"')
    } else {
        (vec!['&', 'y', 'e', 'n', ';'], '\u{a5}')
    };
    assert(r.0@ =~= entities()[k as int].0);
    r
}

fn matches_at(s: &[char], i: usize, e: &[char]) -> (r: bool)
    ensures
        r == entity_at(s@, i as int, e@),
{
    if i > s.len() || e.len() > s.len() - i {
        return false;
    }
    let n = s.len();
    let mut j: usize = 0;
    while j < e.len()
        invariant
            j <= e@.len(),
            n == s@.len(),
            i + e@.len() <= s@.len(),
            forall|q: int| 0 <= q < j ==> s@[i + q] == e@[q],
        decreases e@.len() - j,
    {
        assert(i + j < n);
        if s[i + j] != e[j] {
            assert(s@.subrange(i as int, i + e@.len())[j as int] != e@[j as int]);
            return false;
        }
        j = j + 1;
    }
    assert(s@.subrange(i as int, i + e@.len()) =~= e@);
    true
}

fn find_entity(s: &[char], i: usize) -> (r: Option<(usize, char, usize)>)
    ensures
        match r {
            Some((k, c, n)) => entity_from(s@, i as int, 0) == Some(k as int) && k < 6 && c
                == entities()[k as int].1 && n == entities()[k as int].0.len(),
            None => entity_from(s@, i as int, 0) is None,
        },
{
    let mut k: usize = 0;
    while k < 6
        invariant
            k <= 6,
            entities().len() == 6,
            entity_from(s@, i as int, 0) == entity_from(s@, i as int, k as int),
        decreases 6 - k,
    {
        let (e, c) = reference(k);
        if matches_at(s, i, e.as_slice()) {
            return Some((k, c, e.len()));
        }
        k = k + 1;
    }
    None
}

/// Replaces the character references of a text (see `decode`).
pub fn decode_text(s: &[char]) -> (r: Vec<char>)
    ensures
        r@ == decode(s@),
{
    let mut out: Vec<char> = Vec::new();
    let mut i: usize = 0;
    while i < s.len()
        invariant
            i <= s@.len(),
            decode(s@) == out@ + decode_from(s@, i as int),
        decreases s@.len() - i,
    {
        let ghost before = out@;
        match find_entity(s, i) {
            Some((k, c, n)) => {
                if n > 0 && n <= s.len() - i {
                    out.push(c);
                    assert(out@ + decode_from(s@, i + n) =~= before + decode_from(s@, i as int));
                    i = i + n;
                } else {
                    out.push(s[i]);
                    assert(out@ + decode_from(s@, i + 1) =~= before + decode_from(s@, i as int));
                    i = i + 1;
                }
            },
            None => {
                out.push(s[i]);
                assert(out@ + decode_from(s@, i + 1) =~= before + decode_from(s@, i as int));
                i = i + 1;
            },
        }
    }
    assert(out@ + decode_from(s@, i as int) =~= out@);
    out
}

} // verus!
