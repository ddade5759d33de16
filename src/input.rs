//! A single-line text field with a cursor kept as a UTF-8 byte offset.
use vstd::prelude::*;
use crate::text::{chars_of, string_of};

verus! {

/// The number of bytes `c` takes in UTF-8, as `char::len_utf8` gives it.
pub open spec fn utf8_len(c: char) -> nat {
    if (c as u32) < 0x80 {
        1
    } else if (c as u32) < 0x800 {
        2
    } else if (c as u32) < 0x10000 {
        3
    } else {
        4
    }
}

/// The number of bytes `s` takes in UTF-8.
pub open spec fn byte_len(s: Seq<char>) -> nat
    decreases s.len(),
{
    if s.len() == 0 {
        0
    } else {
        byte_len(s.drop_last()) + utf8_len(s.last())
    }
}

/// Whether the byte offset `b` falls between two characters of `s`.
pub open spec fn is_boundary(s: Seq<char>, b: nat) -> bool {
    exists|k: int| 0 <= k <= s.len() && byte_len(#[trigger] s.take(k)) == b
}

/// The number of characters before the byte offset `b`.
pub open spec fn char_index(s: Seq<char>, b: nat) -> int {
    choose|k: int| 0 <= k <= s.len() && byte_len(#[trigger] s.take(k)) == b
}

fn utf8_width(c: char) -> (r: usize)
    ensures
        r == utf8_len(c),
{
    let u = c as u32;
    if u < 0x80 {
        1
    } else if u < 0x800 {
        2
    } else if u < 0x10000 {
        3
    } else {
        4
    }
}

proof fn lemma_byte_len_take_step(s: Seq<char>, k: int)
    requires
        0 <= k < s.len(),
    ensures
        byte_len(s.take(k + 1)) == byte_len(s.take(k)) + utf8_len(s[k]),
{
    assert(s.take(k + 1).drop_last() =~= s.take(k));
}

proof fn lemma_byte_len_strict(s: Seq<char>, i: int, k: int)
    requires
        0 <= i < k <= s.len(),
    ensures
        byte_len(s.take(i)) < byte_len(s.take(k)),
    decreases k - i,
{
    lemma_byte_len_take_step(s, k - 1);
    if i < k - 1 {
        lemma_byte_len_strict(s, i, k - 1);
    }
}

proof fn lemma_char_index_unique(s: Seq<char>, b: nat, k: int)
    requires
        0 <= k <= s.len(),
        byte_len(s.take(k)) == b,
    ensures
        char_index(s, b) == k,
{
    let j = char_index(s, b);
    assert(0 <= j <= s.len() && byte_len(s.take(j)) == b);
    if j < k {
        lemma_byte_len_strict(s, j, k);
    } else if k < j {
        lemma_byte_len_strict(s, k, j);
    }
}

proof fn lemma_byte_len_add(a: Seq<char>, b: Seq<char>)
    ensures
        byte_len(a + b) == byte_len(a) + byte_len(b),
    decreases b.len(),
{
    if b.len() == 0 {
        assert(a + b =~= a);
    } else {
        assert((a + b).drop_last() =~= a + b.drop_last());
        lemma_byte_len_add(a, b.drop_last());
    }
}

/// A text field.
#[derive(Debug, Clone)]
pub struct TextInput {
    pub value: String,
    pub cursor: usize,
}

impl TextInput {
    /// The cursor sits between two characters of the value, and the value's
    /// UTF-8 length fits a `usize` with room for one more character.
    pub open spec fn wf(&self) -> bool {
        &&& is_boundary(self.value@, self.cursor as nat)
        &&& byte_len(self.value@) + 4 <= usize::MAX
    }

    /// The number of characters before the cursor.
    pub open spec fn pos(&self) -> int {
        char_index(self.value@, self.cursor as nat)
    }

    fn char_pos(&self, chars: &Vec<char>) -> (k: usize)
        requires
            self.wf(),
            chars@ == self.value@,
        ensures
            k == self.pos(),
            0 <= k <= chars@.len(),
            byte_len(chars@.take(k as int)) == self.cursor,
    {
        let ghost target = char_index(self.value@, self.cursor as nat);
        let n = chars.len();
        let mut i: usize = 0;
        let mut acc: usize = 0;
        proof {
            assert(chars@.take(0) =~= Seq::<char>::empty());
        }
        while acc < self.cursor
            invariant
                n == chars@.len(),
                self.wf(),
                chars@ == self.value@,
                0 <= target <= chars@.len(),
                byte_len(chars@.take(target)) == self.cursor,
                i <= target,
                acc == byte_len(chars@.take(i as int)),
            decreases target - i,
        {
            proof {
                assert(i < target);
                lemma_byte_len_take_step(chars@, i as int);
                if i + 1 < target {
                    lemma_byte_len_strict(chars@, i + 1, target);
                }
            }
            acc = acc + utf8_width(chars[i]);
            i += 1;
        }
        proof {
            if i < target {
                lemma_byte_len_strict(chars@, i as int, target);
            }
        }
        i
    }

    /// A field holding `value`, with the cursor at its end.
    pub fn new(value: &str) -> (r: TextInput)
        requires
            byte_len(value@) + 4 <= usize::MAX,
        ensures
            r.wf(),
            r.value@ == value@,
            r.pos() == value@.len(),
    {
        let chars = chars_of(value);
        let mut acc: usize = 0;
        let mut i: usize = 0;
        while i < chars.len()
            invariant
                chars@ == value@,
                i <= chars@.len(),
                acc == byte_len(chars@.take(i as int)),
                byte_len(value@) + 4 <= usize::MAX,
            decreases chars.len() - i,
        {
            proof {
                lemma_byte_len_take_step(chars@, i as int);
                if i + 1 < chars@.len() {
                    lemma_byte_len_strict(chars@, i + 1, chars@.len() as int);
                }
                assert(chars@.take(chars@.len() as int) =~= chars@);
            }
            acc = acc + utf8_width(chars[i]);
            i += 1;
        }
        let r = TextInput { value: String::from_str(value), cursor: acc };
        proof {
            assert(chars@.take(chars@.len() as int) =~= chars@);
            assert(is_boundary(r.value@, r.cursor as nat)) by {
                assert(byte_len(r.value@.take(chars@.len() as int)) == r.cursor);
            }
            lemma_char_index_unique(r.value@, r.cursor as nat, chars@.len() as int);
        }
        r
    }

    /// Inserts `ch` at the cursor and moves the cursor past it.
    pub fn insert(&mut self, ch: char)
        requires
            old(self).wf(),
        ensures
            final(self).value@ == old(self).value@.insert(old(self).pos(), ch),
            final(self).cursor == old(self).cursor + utf8_len(ch),
            final(self).pos() == old(self).pos() + 1,
            byte_len(old(self).value@) + utf8_len(ch) + 4 <= usize::MAX ==> final(self).wf(),
            is_boundary(final(self).value@, final(self).cursor as nat),
    {
        let chars = chars_of(self.value.as_str());
        let k = self.char_pos(&chars);
        let ghost old_v = self.value@;
        let mut out = crate::text::slice_chars(&chars, 0, k);
        out.push(ch);
        let rest = crate::text::slice_chars(&chars, k, chars.len());
        crate::names::append_chars(&mut out, &rest);
        proof {
            assert(out@ =~= old_v.insert(k as int, ch));
            assert(old_v.take(k as int) =~= chars@.take(k as int));
            lemma_byte_len_add(old_v.take(k as int), old_v.skip(k as int));
            assert(old_v.take(k as int) + old_v.skip(k as int) =~= old_v);
        }
        let w = utf8_width(ch);
        self.value = string_of(&out);
        self.cursor = self.cursor + w;
        proof {
            let nv = out@;
            lemma_byte_len_take_step(nv, k as int);
            assert(nv.take(k as int) =~= old_v.take(k as int));
            assert(byte_len(nv.take(k + 1)) == self.cursor);
            lemma_char_index_unique(nv, self.cursor as nat, k + 1);
            assert(nv =~= old_v.take(k as int).push(ch) + old_v.skip(k as int));
            lemma_byte_len_add(old_v.take(k as int).push(ch), old_v.skip(k as int));
            assert(old_v.take(k as int).push(ch).drop_last() =~= old_v.take(k as int));
        }
    }

    /// Removes the character before the cursor, if any, and moves the cursor
    /// back over it.
    pub fn backspace(&mut self)
        requires
            old(self).wf(),
        ensures
            final(self).wf(),
            old(self).pos() == 0 ==> *final(self) == *old(self),
            old(self).pos() > 0 ==> {
                &&& final(self).value@ == old(self).value@.remove(old(self).pos() - 1)
                &&& final(self).cursor == old(self).cursor - utf8_len(
                    old(self).value@[old(self).pos() - 1],
                )
                &&& final(self).pos() == old(self).pos() - 1
            },
    {
        let chars = chars_of(self.value.as_str());
        let k = self.char_pos(&chars);
        if k == 0 {
            return;
        }
        let ghost old_v = self.value@;
        let mut out = crate::text::slice_chars(&chars, 0, k - 1);
        let rest = crate::text::slice_chars(&chars, k, chars.len());
        crate::names::append_chars(&mut out, &rest);
        let w = utf8_width(chars[k - 1]);
        proof {
            assert(out@ =~= old_v.remove(k - 1));
            lemma_byte_len_take_step(old_v, k - 1);
            assert(old_v.remove(k - 1).take(k - 1) =~= old_v.take(k - 1));
            lemma_byte_len_add(old_v.take(k as int), old_v.skip(k as int));
            assert(old_v.take(k as int) + old_v.skip(k as int) =~= old_v);
            lemma_byte_len_add(old_v.take(k - 1), old_v.skip(k as int));
            assert(old_v.remove(k - 1) =~= old_v.take(k - 1) + old_v.skip(k as int));
        }
        self.value = string_of(&out);
        self.cursor = self.cursor - w;
        proof {
            lemma_char_index_unique(self.value@, self.cursor as nat, k - 1);
        }
    }

    /// Removes the character after the cursor, if any.
    pub fn delete(&mut self)
        requires
            old(self).wf(),
        ensures
            final(self).wf(),
            old(self).pos() == old(self).value@.len() ==> *final(self) == *old(self),
            old(self).pos() < old(self).value@.len() ==> {
                &&& final(self).value@ == old(self).value@.remove(old(self).pos())
                &&& final(self).cursor == old(self).cursor
                &&& final(self).pos() == old(self).pos()
            },
    {
        let chars = chars_of(self.value.as_str());
        let k = self.char_pos(&chars);
        if k == chars.len() {
            return;
        }
        let ghost old_v = self.value@;
        let mut out = crate::text::slice_chars(&chars, 0, k);
        let rest = crate::text::slice_chars(&chars, k + 1, chars.len());
        crate::names::append_chars(&mut out, &rest);
        proof {
            assert(out@ =~= old_v.remove(k as int));
            assert(old_v.remove(k as int).take(k as int) =~= old_v.take(k as int));
            lemma_byte_len_add(old_v.take(k + 1), old_v.skip(k + 1));
            assert(old_v.take(k + 1) + old_v.skip(k + 1) =~= old_v);
            lemma_byte_len_add(old_v.take(k as int), old_v.skip(k + 1));
            assert(old_v.remove(k as int) =~= old_v.take(k as int) + old_v.skip(k + 1));
            lemma_byte_len_take_step(old_v, k as int);
        }
        self.value = string_of(&out);
        proof {
            lemma_char_index_unique(self.value@, self.cursor as nat, k as int);
        }
    }

    /// Moves the cursor back over one character, if any.
    pub fn move_left(&mut self)
        requires
            old(self).wf(),
        ensures
            final(self).wf(),
            final(self).value@ == old(self).value@,
            old(self).pos() == 0 ==> final(self).cursor == old(self).cursor,
            old(self).pos() > 0 ==> final(self).pos() == old(self).pos() - 1,
    {
        let chars = chars_of(self.value.as_str());
        let k = self.char_pos(&chars);
        if k == 0 {
            return;
        }
        proof {
            lemma_byte_len_take_step(chars@, k - 1);
        }
        self.cursor = self.cursor - utf8_width(chars[k - 1]);
        proof {
            lemma_char_index_unique(self.value@, self.cursor as nat, k - 1);
        }
    }

    /// Moves the cursor forward over one character, if any.
    pub fn move_right(&mut self)
        requires
            old(self).wf(),
        ensures
            final(self).wf(),
            final(self).value@ == old(self).value@,
            old(self).pos() == old(self).value@.len() ==> final(self).cursor == old(self).cursor,
            old(self).pos() < old(self).value@.len() ==> final(self).pos() == old(self).pos() + 1,
    {
        let chars = chars_of(self.value.as_str());
        let k = self.char_pos(&chars);
        if k == chars.len() {
            return;
        }
        proof {
            lemma_byte_len_take_step(chars@, k as int);
            if k + 1 < chars@.len() {
                lemma_byte_len_strict(chars@, k + 1, chars@.len() as int);
            }
            assert(chars@.take(chars@.len() as int) =~= chars@);
        }
        self.cursor = self.cursor + utf8_width(chars[k]);
        proof {
            lemma_char_index_unique(self.value@, self.cursor as nat, k + 1);
        }
    }

    /// The display width of the text before the cursor.
    pub fn cursor_display_offset(&self) -> (r: usize)
        requires
            self.wf(),
        ensures
            r == display_width_of(self.value@.take(self.pos())),
    {
        let chars = chars_of(self.value.as_str());
        let k = self.char_pos(&chars);
        let before = string_of(&crate::text::slice_chars(&chars, 0, k));
        proof {
            assert(before@ =~= self.value@.take(k as int));
        }
        display_width(before.as_str())
    }
}

/// The number of terminal columns a string takes.
pub uninterp spec fn display_width_of(s: Seq<char>) -> nat;

/// Relies on `unicode_width::UnicodeWidthStr::width`: the columns the
/// string takes; none for the empty string.
#[verifier::external_body]
fn display_width(s: &str) -> (r: usize)
    ensures
        r == display_width_of(s@),
        s@.len() == 0 ==> r == 0,
{
    unicode_width::UnicodeWidthStr::width(s)
}

} // verus!
