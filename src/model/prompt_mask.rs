use vstd::prelude::*;
use std::collections::BTreeMap;
use vstd::std_specs::btree::{increasing_seq, spec_btree_map_iter};
use vstd::std_specs::iter::IteratorSpec;
use vstd::laws_cmp::obeys_cmp;
use vstd::std_specs::cmp::OrdSpec;
use crate::text::{byte_len, byte_len_within, insert_at, str_byte_len, string_from_chars};

verus! {

/// Whether the insertion points of `entries`, each shifted by `offset`, fall inside
/// a buffer of `len` chars as it grows, and the running counts fit in `usize`.
pub open spec fn mask_fits(len: int, entries: Seq<(i32, Seq<char>)>, offset: int) -> bool
    decreases entries.len(),
{
    if entries.len() == 0 {
        true
    } else {
        let (idx, value) = entries[0];
        &&& 1 <= idx
        &&& offset + idx - 1 <= len
        &&& len + value.len() <= usize::MAX
        &&& offset + byte_len(value) <= usize::MAX
        &&& mask_fits(len + value.len(), entries.drop_first(), offset + byte_len(value))
    }
}

/// `buf` with each entry's value inserted in front of its 1-based position, shifted
/// by `offset` plus the byte lengths of the values inserted before it.
pub open spec fn apply_mask(buf: Seq<char>, entries: Seq<(i32, Seq<char>)>, offset: int) -> Seq<
    char,
>
    decreases entries.len(),
{
    if entries.len() == 0 {
        buf
    } else {
        let (idx, value) = entries[0];
        apply_mask(
            insert_at(buf, offset + idx - 1, value),
            entries.drop_first(),
            offset + byte_len(value),
        )
    }
}

/// Keys of `entries` strictly ascending.
pub open spec fn keys_ascending(entries: Seq<(i32, Seq<char>)>) -> bool {
    forall|i: int, j: int| 0 <= i < j < entries.len() ==> entries[i].0 < entries[j].0
}

/// An overlay for the prompt: strings to insert at 1-based char positions, kept
/// in ascending order of position.
#[derive(Debug, PartialEq, Eq, Clone)]
pub struct PromptMask {
    mask: Vec<(i32, String)>,
}

impl View for PromptMask {
    type V = Seq<(i32, Seq<char>)>;

    closed spec fn view(&self) -> Seq<(i32, Seq<char>)> {
        self.mask@.map_values(|e: (i32, String)| (e.0, e.1@))
    }
}

impl PromptMask {
    /// Positions are unique and ascending.
    pub open spec fn wf(&self) -> bool {
        keys_ascending(self@)
    }

    pub fn new() -> (r: Self)
        ensures
            r.wf(),
            r@ == Seq::<(i32, Seq<char>)>::empty(),
    {
        let r = PromptMask { mask: Vec::new() };
        assert(r@ =~= Seq::<(i32, Seq<char>)>::empty());
        r
    }

    pub fn clear(&mut self)
        ensures
            final(self).wf(),
            final(self)@ == Seq::<(i32, Seq<char>)>::empty(),
    {
        self.mask.clear();
        assert(self@ =~= Seq::<(i32, Seq<char>)>::empty());
    }

    /// The mask that inserts each value of `map` at its key.
    pub fn from_map(map: BTreeMap<i32, String>) -> (r: Self)
        ensures
            r.wf(),
            r@.len() == map@.len(),
            forall|i: int| 0 <= i < r@.len() ==> #[trigger] map@.contains_key(r@[i].0) && map@[r@[i].0]@ == r@[i].1,
            forall|k: i32| #[trigger] map@.contains_key(k) ==> exists|i: int| 0 <= i < r@.len() && r@[i].0 == k,
    {
        broadcast use {vstd::std_specs::btree::group_btree_axioms, vstd::laws_cmp::group_laws_cmp};
        let ghost pairs = spec_btree_map_iter(&map).remaining();
        let mut mask: Vec<(i32, String)> = Vec::new();
        for e in it: map.iter()
            invariant
                mask@.len() == it.index(),
                it.seq() == pairs,
                forall|i: int| 0 <= i < mask@.len() ==> mask@[i].0 == *it.seq()[i].0 && mask@[i].1 == *it.seq()[i].1,
        {
            mask.push((*e.0, e.1.clone()));
        }
        let r = PromptMask { mask };
        proof {
            let keys = pairs.map_values(|kv: (&i32, &String)| *kv.0);
            let mask = r.mask;
            assert(mask@.len() == pairs.len());
            assert(obeys_cmp::<i32>());
            assert(increasing_seq(keys));
            assert forall|i: int, j: int| 0 <= i < j < mask@.len() implies mask@[i].0 < mask@[j].0 by {
                assert(keys[i] == mask@[i].0 && keys[j] == mask@[j].0);
                assert(keys[i].cmp_spec(&keys[j]) is Less);
            }
            assert forall|k: i32| #[trigger] map@.contains_key(k) implies exists|i: int| 0 <= i < r@.len() && r@[i].0 == k by {
                assert(pairs.contains((&k, &map@[k])));
                let i = choose|i: int| 0 <= i < pairs.len() && pairs[i] == (&k, &map@[k]);
                assert(r@[i].0 == k);
            }
        }
        r
    }

    /// The entries, in ascending order of position.
    pub fn entries(&self) -> (r: &Vec<(i32, String)>)
        ensures
            r@.map_values(|e: (i32, String)| (e.0, e.1@)) == self@,
    {
        &self.mask
    }

    /// Whether the mask fits a buffer of `len` chars: every position falls
    /// inside the buffer as it grows, and the counts stay within `usize`.
    pub fn fits(&self, len: usize) -> (r: bool)
        ensures
            r == mask_fits(len as int, self@, 0),
    {
        let mut cur: usize = len;
        let mut offset: usize = 0;
        let mut i: usize = 0;
        assert(self@.skip(0) =~= self@);
        while i < self.mask.len()
            invariant
                i <= self.mask.len(),
                mask_fits(len as int, self@, 0) == mask_fits(cur as int, self@.skip(i as int), offset as int),
            decreases self.mask.len() - i,
        {
            let idx = self.mask[i].0;
            let value = &self.mask[i].1;
            let ghost rest = self@.skip(i as int);
            assert(rest[0] == (idx, value@));
            assert(rest.drop_first() =~= self@.skip(i + 1));
            if idx < 1 || offset > cur || (idx - 1) as usize > cur - offset {
                return false;
            }
            let chars = value.as_str().unicode_len();
            if chars > usize::MAX - cur {
                return false;
            }
            match byte_len_within(value.as_str(), usize::MAX - offset) {
                None => {
                    return false;
                },
                Some(bytes) => {
                    cur = cur + chars;
                    offset = offset + bytes;
                },
            }
            i += 1;
        }
        assert(self@.skip(i as int) =~= Seq::<(i32, Seq<char>)>::empty());
        true
    }

    /// `buf` with every value of the mask inserted in ascending order of position.
    /// Each position is 1-based in the unmasked buffer and is shifted by the byte
    /// lengths of the values inserted before it.
    pub fn mask_buffer(&self, buf: &[char]) -> (r: String)
        requires
            mask_fits(buf@.len() as int, self@, 0),
        ensures
            r@ == apply_mask(buf@, self@, 0),
    {
        let mut masked: Vec<char> = vstd::slice::slice_to_vec(buf);
        let mut offset: usize = 0;
        let mut i: usize = 0;
        assert(self@.skip(0) =~= self@);
        while i < self.mask.len()
            invariant
                0 <= i <= self.mask.len(),
                mask_fits(masked@.len() as int, self@.skip(i as int), offset as int),
                apply_mask(buf@, self@, 0) == apply_mask(masked@, self@.skip(i as int), offset as int),
            decreases self.mask.len() - i,
        {
            let idx = self.mask[i].0;
            let value = &self.mask[i].1;
            let ghost rest = self@.skip(i as int);
            assert(rest[0] == (idx, value@));
            assert(rest.drop_first() =~= self@.skip(i + 1));
            let pos: usize = offset + (idx - 1) as usize;
            let ghost before = masked@;
            let n = value.as_str().unicode_len();
            let mut k: usize = 0;
            while k < n
                invariant
                    n == value@.len(),
                    0 <= k <= n,
                    pos <= before.len(),
                    masked@ == before.subrange(0, pos as int) + value@.subrange(0, k as int)
                        + before.subrange(pos as int, before.len() as int),
                    before.len() + n <= usize::MAX,
                decreases n - k,
            {
                let c = value.as_str().get_char(k);
                masked.insert(pos + k, c);
                assert(masked@ =~= before.subrange(0, pos as int) + value@.subrange(0, k + 1)
                    + before.subrange(pos as int, before.len() as int));
                k += 1;
            }
            assert(value@.subrange(0, n as int) =~= value@);
            offset = offset + str_byte_len(value);
            i += 1;
        }
        assert(self@.skip(i as int) =~= Seq::<(i32, Seq<char>)>::empty());
        string_from_chars(&masked)
    }
}

/// `buf` from `from` on, cut before the position of each entry (its 1-based
/// index moved by `shift`) with the entry's value placed at the cut: every value
/// once, in the order of the entries. The shift grows by what each value's bytes
/// exceed its chars.
pub open spec fn woven(buf: Seq<char>, entries: Seq<(i32, Seq<char>)>, from: int, shift: int) -> Seq<
    char,
>
    decreases entries.len(),
{
    if entries.len() == 0 {
        buf.subrange(from, buf.len() as int)
    } else {
        let (idx, value) = entries[0];
        let cut = idx - 1 + shift;
        buf.subrange(from, cut) + value + woven(
            buf,
            entries.drop_first(),
            cut,
            shift + byte_len(value) - value.len(),
        )
    }
}

/// A char takes at least one byte.
pub proof fn lemma_byte_len_ge(s: Seq<char>)
    ensures
        byte_len(s) >= s.len(),
    decreases s.len(),
{
    if s.len() > 0 {
        lemma_byte_len_ge(s.drop_first());
    }
}

proof fn lemma_apply_woven(
    buf: Seq<char>,
    entries: Seq<(i32, Seq<char>)>,
    pre: Seq<char>,
    from: int,
    shift: int,
    off: int,
)
    requires
        0 <= from <= buf.len(),
        off == pre.len() - from + shift,
        mask_fits(pre.len() + buf.len() - from, entries, off),
        keys_ascending(entries),
        entries.len() > 0 ==> entries[0].0 - 1 + shift >= from,
    ensures
        apply_mask(pre + buf.subrange(from, buf.len() as int), entries, off) == pre + woven(
            buf,
            entries,
            from,
            shift,
        ),
    decreases entries.len(),
{
    let x = pre + buf.subrange(from, buf.len() as int);
    if entries.len() == 0 {
    } else {
        let (idx, value) = entries[0];
        let cut = idx - 1 + shift;
        let rest = entries.drop_first();
        let shift2 = shift + byte_len(value) - value.len();
        let pre2 = pre + buf.subrange(from, cut) + value;
        assert(insert_at(x, off + idx - 1, value) =~= pre2 + buf.subrange(cut, buf.len() as int));
        lemma_byte_len_ge(value);
        assert(keys_ascending(rest)) by {
            assert forall|i: int, j: int| 0 <= i < j < rest.len() implies rest[i].0 < rest[j].0 by {
                assert(rest[i] == entries[i + 1] && rest[j] == entries[j + 1]);
            }
        }
        if rest.len() > 0 {
            assert(rest[0] == entries[1]);
            assert(entries[0].0 < entries[1].0);
        }
        lemma_apply_woven(buf, rest, pre2, cut, shift2, off + byte_len(value));
        assert(pre + woven(buf, entries, from, shift) =~= pre2 + woven(buf, rest, cut, shift2));
    }
}

/// Masking inserts every value of the mask exactly once, in ascending order of
/// position, and keeps the prompt's own chars in order between them.
pub proof fn law_mask_inserts_each_once(buf: Seq<char>, entries: Seq<(i32, Seq<char>)>)
    requires
        keys_ascending(entries),
        mask_fits(buf.len() as int, entries, 0),
    ensures
        apply_mask(buf, entries, 0) == woven(buf, entries, 0, 0),
{
    assert(Seq::<char>::empty() + buf.subrange(0, buf.len() as int) =~= buf);
    assert(Seq::<char>::empty() + woven(buf, entries, 0, 0) =~= woven(buf, entries, 0, 0));
    lemma_apply_woven(buf, entries, Seq::<char>::empty(), 0, 0, 0);
}

/// `buf` from `from` on, cut before the 1-based position of each entry in
/// `buf`, with the entry's value placed at the cut.
pub open spec fn spliced(buf: Seq<char>, entries: Seq<(i32, Seq<char>)>, from: int) -> Seq<char>
    decreases entries.len(),
{
    if entries.len() == 0 {
        buf.subrange(from, buf.len() as int)
    } else {
        let cut = entries[0].0 - 1;
        buf.subrange(from, cut) + entries[0].1 + spliced(buf, entries.drop_first(), cut)
    }
}

/// The chars of all the values of `entries`.
pub open spec fn total_len(entries: Seq<(i32, Seq<char>)>) -> nat
    decreases entries.len(),
{
    if entries.len() == 0 {
        0
    } else {
        entries[0].1.len() + total_len(entries.drop_first())
    }
}

/// Every value takes one byte per char, as ASCII does.
pub open spec fn byte_per_char(entries: Seq<(i32, Seq<char>)>) -> bool {
    forall|i: int| 0 <= i < entries.len() ==> byte_len(#[trigger] entries[i].1) == entries[i].1.len()
}

proof fn lemma_tail_props(entries: Seq<(i32, Seq<char>)>)
    requires
        entries.len() > 0,
        keys_ascending(entries),
        byte_per_char(entries),
    ensures
        keys_ascending(entries.drop_first()),
        byte_per_char(entries.drop_first()),
        entries.len() > 1 ==> entries[0].0 < entries.drop_first()[0].0,
{
    let rest = entries.drop_first();
    assert forall|i: int, j: int| 0 <= i < j < rest.len() implies rest[i].0 < rest[j].0 by {
        assert(rest[i] == entries[i + 1] && rest[j] == entries[j + 1]);
    }
    assert forall|i: int| 0 <= i < rest.len() implies byte_len(#[trigger] rest[i].1) == rest[i].1.len() by {
        assert(rest[i] == entries[i + 1]);
    }
}

proof fn lemma_woven_spliced(buf: Seq<char>, entries: Seq<(i32, Seq<char>)>, from: int)
    requires
        keys_ascending(entries),
        byte_per_char(entries),
    ensures
        woven(buf, entries, from, 0) == spliced(buf, entries, from),
    decreases entries.len(),
{
    if entries.len() > 0 {
        lemma_tail_props(entries);
        assert(byte_len(entries[0].1) == entries[0].1.len());
        lemma_woven_spliced(buf, entries.drop_first(), entries[0].0 - 1);
    }
}

proof fn lemma_fits_bytewise(b: int, entries: Seq<(i32, Seq<char>)>, off: int)
    requires
        b >= 0,
        off >= 0,
        keys_ascending(entries),
        byte_per_char(entries),
        forall|i: int| 0 <= i < entries.len() ==> 1 <= #[trigger] entries[i].0 <= b + 1,
        b + off + total_len(entries) <= usize::MAX,
    ensures
        mask_fits(b + off, entries, off),
    decreases entries.len(),
{
    if entries.len() > 0 {
        let v = entries[0].1;
        lemma_tail_props(entries);
        assert(byte_len(v) == v.len());
        let rest = entries.drop_first();
        assert forall|i: int| 0 <= i < rest.len() implies 1 <= #[trigger] rest[i].0 <= b + 1 by {
            assert(rest[i] == entries[i + 1]);
        }
        assert(entries[0].0 >= 1 && entries[0].0 <= b + 1);
        lemma_fits_bytewise(b, rest, off + v.len());
        assert(b + off + v.len() == (b + off) + v.len());
    }
}

proof fn lemma_spliced_len(buf: Seq<char>, entries: Seq<(i32, Seq<char>)>, from: int)
    requires
        0 <= from <= buf.len(),
        keys_ascending(entries),
        forall|i: int| 0 <= i < entries.len() ==> from + 1 <= #[trigger] entries[i].0 <= buf.len() + 1,
    ensures
        spliced(buf, entries, from).len() == buf.len() - from + total_len(entries),
    decreases entries.len(),
{
    if entries.len() > 0 {
        let rest = entries.drop_first();
        let cut = entries[0].0 - 1;
        assert(entries[0].0 >= from + 1);
        assert forall|i: int| 0 <= i < rest.len() implies cut + 1 <= #[trigger] rest[i].0 <= buf.len() + 1 by {
            assert(rest[i] == entries[i + 1]);
            assert(entries[0].0 < entries[i + 1].0);
        }
        assert forall|i: int, j: int| 0 <= i < j < rest.len() implies rest[i].0 < rest[j].0 by {
            assert(rest[i] == entries[i + 1] && rest[j] == entries[j + 1]);
        }
        lemma_spliced_len(buf, rest, cut);
    }
}

/// For values of one byte per char (ASCII), with positions ascending from 1
/// up to one past the end of `buf`, the mask fits whenever the result's length
/// fits in `usize`, and masking gives the prompt cut before each position
/// (1-based, in the unmasked prompt) with each value placed there once, in
/// ascending order; the result is as long as the prompt and all values together.
pub proof fn law_mask_bytewise(buf: Seq<char>, entries: Seq<(i32, Seq<char>)>)
    requires
        keys_ascending(entries),
        byte_per_char(entries),
        entries.len() > 0 ==> 1 <= entries[0].0 && entries.last().0 <= buf.len() + 1,
        buf.len() + total_len(entries) <= usize::MAX,
    ensures
        mask_fits(buf.len() as int, entries, 0),
        apply_mask(buf, entries, 0) == spliced(buf, entries, 0),
        apply_mask(buf, entries, 0).len() == buf.len() + total_len(entries),
{
    assert forall|i: int| 0 <= i < entries.len() implies 1 <= #[trigger] entries[i].0 <= buf.len() + 1 by {
        if i > 0 {
            assert(entries[0].0 < entries[i].0);
        }
        if i < entries.len() - 1 {
            assert(entries[i].0 < entries[entries.len() - 1].0);
        }
    }
    lemma_fits_bytewise(buf.len() as int, entries, 0);
    assert(buf.len() as int + 0 == buf.len() as int);
    law_mask_inserts_each_once(buf, entries);
    lemma_woven_spliced(buf, entries, 0);
    lemma_spliced_len(buf, entries, 0);
}

} // verus!
