use vstd::prelude::*;
use crate::text::{byte_len, char_width, lemma_byte_len_concat};

verus! {

/// What vte's parser prints, char by char, when fed `s` one char at a time
/// (each cut to its low byte) from its ground state: for each char, the char
/// printed on it, if any. Escape sequences, CSI parameters and OSC payloads
/// print nothing.
pub uninterp spec fn vte_printed(s: Seq<char>) -> Seq<Option<char>>;

/// The chars of `printed` that are there, in order.
pub open spec fn kept_chars(printed: Seq<Option<char>>) -> Seq<char>
    decreases printed.len(),
{
    if printed.len() == 0 {
        Seq::empty()
    } else {
        let rest = kept_chars(printed.drop_last());
        match printed.last() {
            Some(c) => rest.push(c),
            None => rest,
        }
    }
}

/// The printable chars of `s`.
pub open spec fn printable_of(s: Seq<char>) -> Seq<char> {
    kept_chars(vte_printed(s))
}

/// Each char of `printed` that is there, with the byte offset in `s` of the
/// char it was printed on.
pub open spec fn indexed(s: Seq<char>, printed: Seq<Option<char>>) -> Seq<(usize, char)>
    decreases printed.len(),
{
    if printed.len() == 0 {
        Seq::empty()
    } else {
        let i = printed.len() - 1;
        let rest = indexed(s, printed.drop_last());
        match printed.last() {
            Some(c) => rest.push((byte_len(s.subrange(0, i)) as usize, c)),
            None => rest,
        }
    }
}

/// The printable chars of `s` with their byte offsets.
pub open spec fn printable_indices_of(s: Seq<char>) -> Seq<(usize, char)> {
    indexed(s, vte_printed(s))
}

/// Collects what the parser prints.
pub struct Performer {
    pub c: Option<char>,
}

impl Performer {
    pub fn new() -> (r: Self)
        ensures
            r.c is None,
    {
        Performer { c: None }
    }
}

impl vte::Perform for Performer {
    fn print(&mut self, c: char) {
        self.c = Some(c);
    }
}

/// Relies on vte's `Parser::new` and `Parser::advance`: one fresh parser is fed
/// each char of `s`, cut to a byte, and what it prints on each is kept; one
/// entry per char.
#[verifier::external_body]
fn printed_per_char(s: &str) -> (r: Vec<Option<char>>)
    ensures
        r@ == vte_printed(s@),
        r@.len() == s@.len(),
{
    let mut parser = vte::Parser::new();
    let mut performer = Performer { c: None };
    s.chars().map(|c| {
        parser.advance(&mut performer, c as u8);
        performer.c.take()
    }).collect()
}

/// The chars of `s` that the terminal prints: escape sequences left out.
pub fn printable_chars(s: &str) -> (r: Vec<char>)
    ensures
        r@ == printable_of(s@),
{
    let printed = printed_per_char(s);
    let mut r: Vec<char> = Vec::new();
    let mut i: usize = 0;
    while i < printed.len()
        invariant
            i <= printed.len(),
            printed@ == vte_printed(s@),
            r@ == kept_chars(printed@.subrange(0, i as int)),
        decreases printed.len() - i,
    {
        assert(printed@.subrange(0, i + 1).drop_last() =~= printed@.subrange(0, i as int));
        if let Some(c) = printed[i] {
            r.push(c);
        }
        i += 1;
    }
    assert(printed@.subrange(0, i as int) =~= printed@);
    r
}

/// The printable chars of `s`, each with the byte offset of the char it was
/// printed on.
pub fn printable_char_indices(s: &str) -> (r: Vec<(usize, char)>)
    requires
        byte_len(s@) <= usize::MAX,
    ensures
        r@ == printable_indices_of(s@),
{
    let printed = printed_per_char(s);
    let n = printed.len();
    let mut r: Vec<(usize, char)> = Vec::new();
    let mut offset: usize = 0;
    let mut i: usize = 0;
    assert(s@.subrange(0, 0) =~= Seq::<char>::empty());
    while i < n
        invariant
            n == s@.len(),
            i <= n,
            printed@ == vte_printed(s@),
            printed@.len() == n,
            byte_len(s@) <= usize::MAX,
            offset == byte_len(s@.subrange(0, i as int)),
            r@ == indexed(s@, printed@.subrange(0, i as int)),
        decreases n - i,
    {
        let c = s.get_char(i);
        let w = char_width(c);
        proof {
            let pre = s@.subrange(0, i as int);
            let one = seq![c];
            assert(s@.subrange(0, i + 1) =~= pre + one);
            assert(s@ =~= pre + one + s@.subrange(i + 1, n as int));
            lemma_byte_len_concat(pre, one);
            lemma_byte_len_concat(pre + one, s@.subrange(i + 1, n as int));
            assert(one.drop_first() =~= Seq::<char>::empty());
            assert(vstd::utf8::encode_utf8(Seq::<char>::empty()).len() == 0);
            assert(one[0] == c);
            assert(byte_len(one) == w);
            assert(printed@.subrange(0, i + 1).drop_last() =~= printed@.subrange(0, i as int));
        }
        if let Some(p) = printed[i] {
            r.push((offset, p));
        }
        offset = offset + w;
        i += 1;
    }
    assert(printed@.subrange(0, i as int) =~= printed@);
    r
}

} // verus!
