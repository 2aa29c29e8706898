//! Identifier interning: a reversible packing of short identifiers into
//! 64-bit codes, six bits per character.

use vstd::prelude::*;
use vstd::string::StringSliceAdditionalSpecFns;

verus! {

/// The number of characters one code can hold.
pub const MAX_IDENT_LEN: usize = 10;

/// The characters an identifier may hold: letters, digits, `-`, `_` and `.`.
pub open spec fn is_ident_byte(b: u8) -> bool {
    ||| 0x61 <= b <= 0x7a
    ||| 0x41 <= b <= 0x5a
    ||| 0x30 <= b <= 0x39
    ||| b == 0x2d
    ||| b == 0x5f
    ||| b == 0x2e
}

/// The six-bit code of one character. Upper case folds onto lower case and
/// `-` onto `_`; zero is kept free for "no character".
pub open spec fn byte_code(b: u8) -> int {
    if 0x61 <= b <= 0x7a {
        1 + b - 0x61
    } else if 0x41 <= b <= 0x5a {
        1 + b - 0x41
    } else if 0x30 <= b <= 0x39 {
        27 + b - 0x30
    } else if b == 0x2d || b == 0x5f {
        37
    } else {
        38
    }
}

/// The character a six-bit code stands for, zero where it stands for none.
pub open spec fn code_byte(c: int) -> u8 {
    if 1 <= c <= 26 {
        (0x60 + c) as u8
    } else if 27 <= c <= 36 {
        (0x30 + c - 27) as u8
    } else if c == 37 {
        0x5f
    } else if c == 38 {
        0x2e
    } else {
        0
    }
}

/// The character that an identifier character reads back as.
pub open spec fn fold_byte(b: u8) -> u8 {
    if 0x41 <= b <= 0x5a {
        (b + 0x20) as u8
    } else if b == 0x2d {
        0x5f
    } else {
        b
    }
}

/// An identifier: at most ten characters, each of the allowed set.
pub open spec fn is_ident(s: Seq<u8>) -> bool {
    &&& s.len() <= MAX_IDENT_LEN
    &&& forall|i: int| 0 <= i < s.len() ==> is_ident_byte(#[trigger] s[i])
}

/// The code of an identifier: its characters' codes as the digits of a
/// number in base 64, the first character being the most significant.
pub open spec fn intern_spec(s: Seq<u8>) -> int
    decreases s.len(),
{
    if s.len() == 0 {
        0
    } else {
        intern_spec(s.drop_last()) * 64 + byte_code(s.last())
    }
}

/// 64 to the power `n`.
pub open spec fn pow64(n: nat) -> int
    decreases n,
{
    if n == 0 {
        1
    } else {
        64 * pow64((n - 1) as nat)
    }
}

/// The code of an identifier of `n` characters lies below `64^n`.
pub proof fn lemma_intern_bound(s: Seq<u8>)
    requires
        forall|i: int| 0 <= i < s.len() ==> is_ident_byte(#[trigger] s[i]),
    ensures
        0 <= intern_spec(s) < pow64(s.len()),
        s.len() > 0 ==> pow64((s.len() - 1) as nat) <= intern_spec(s),
    decreases s.len(),
{
    if s.len() > 0 {
        let t = s.drop_last();
        assert forall|i: int| 0 <= i < t.len() implies is_ident_byte(#[trigger] t[i]) by {
            assert(t[i] == s[i]);
        }
        lemma_intern_bound(t);
        assert(is_ident_byte(s[s.len() - 1]));
        if t.len() == 0 {
            assert(intern_spec(t) == 0);
        }
    }
}

/// `64^n` grows with `n`, and `64^10` is `2^60`.
pub proof fn lemma_pow64(n: nat)
    requires
        n <= 10,
    ensures
        1 <= pow64(n) <= 0x1000_0000_0000_0000,
        n <= 9 ==> pow64(n) <= 0x0040_0000_0000_0000,
{
    reveal_with_fuel(pow64, 12);
}

/// `64^n` does not shrink as `n` grows.
pub proof fn lemma_pow64_mono(a: nat, b: nat)
    requires
        a <= b,
    ensures
        pow64(a) <= pow64(b),
        pow64(a) >= 1,
    decreases b,
{
    if a < b {
        lemma_pow64_mono(a, (b - 1) as nat);
    } else if a > 0 {
        lemma_pow64_mono((a - 1) as nat, (a - 1) as nat);
    }
}

/// Packs one character into its six-bit code.
pub fn intern_byte(b: u8) -> (c: u8)
    requires
        is_ident_byte(b),
    ensures
        c == byte_code(b),
        1 <= c <= 38,
{
    if 0x61 <= b && b <= 0x7a {
        1 + (b - 0x61)
    } else if 0x41 <= b && b <= 0x5a {
        1 + (b - 0x41)
    } else if 0x30 <= b && b <= 0x39 {
        b - 0x30 + 26 + 1
    } else if b == 0x2d || b == 0x5f {
        37
    } else {
        38
    }
}

/// Tells whether one character may stand in an identifier.
pub fn ident_byte_ok(b: u8) -> (ok: bool)
    ensures
        ok == is_ident_byte(b),
{
    (0x61 <= b && b <= 0x7a) || (0x41 <= b && b <= 0x5a) || (0x30 <= b && b <= 0x39) || b == 0x2d
        || b == 0x5f || b == 0x2e
}

/// Tells whether `s` is an identifier that one code can hold.
pub fn ident_ok(s: &[u8]) -> (ok: bool)
    ensures
        ok == is_ident(s@),
{
    if s.len() > MAX_IDENT_LEN {
        return false;
    }
    let mut i: usize = 0;
    while i < s.len()
        invariant
            i <= s.len(),
            forall|j: int| 0 <= j < i ==> is_ident_byte(#[trigger] s@[j]),
        decreases s.len() - i,
    {
        if !ident_byte_ok(s[i]) {
            return false;
        }
        i += 1;
    }
    true
}

/// Packs an identifier into its code.
pub fn intern(s: &[u8]) -> (code: u64)
    requires
        is_ident(s@),
    ensures
        code == intern_spec(s@),
{
    let mut result: u64 = 0;
    let mut i: usize = 0;
    while i < s.len()
        invariant
            i <= s.len(),
            is_ident(s@),
            result == intern_spec(s@.take(i as int)),
        decreases s.len() - i,
    {
        let c: u8 = intern_byte(s[i]);
        proof {
            let head = s@.take(i as int);
            let next = s@.take(i + 1);
            assert(next.drop_last() =~= head);
            assert(next.last() == s@[i as int]);
            lemma_intern_bound(head);
            lemma_pow64(i as nat);
            let r = result;
            let d = c as u64;
            assert((r << 6) | d == r * 64 + d) by (bit_vector)
                requires
                    r < 0x0040_0000_0000_0000,
                    d < 64,
            ;
        }
        result = (result << 6) | (c as u64);
        i += 1;
    }
    proof {
        assert(s@.take(s@.len() as int) =~= s@);
    }
    result
}

/// The text that a code reads back as, scanning at most `n` six-bit slots
/// from the least significant one and stopping at the first empty slot.
pub open spec fn unintern_spec(code: int, n: nat) -> Seq<u8>
    decreases n,
{
    if n == 0 || code % 64 == 0 {
        Seq::empty()
    } else {
        unintern_spec(code / 64, (n - 1) as nat).push(code_byte(code % 64))
    }
}

/// Whether every slot that `unintern_spec` scans holds the code of a character.
pub open spec fn slots_ok(code: int, n: nat) -> bool
    decreases n,
{
    if n == 0 || code % 64 == 0 {
        true
    } else {
        code % 64 <= 38 && slots_ok(code / 64, (n - 1) as nat)
    }
}

/// An identifier as its characters read back: lower case, `_` for `-`.
pub open spec fn fold_ident(s: Seq<u8>) -> Seq<u8> {
    Seq::new(s.len(), |i: int| fold_byte(s[i]))
}

/// Reading a character's code back gives the folded character.
pub proof fn lemma_code_round_trip(b: u8)
    requires
        is_ident_byte(b),
    ensures
        code_byte(byte_code(b)) == fold_byte(b),
        is_ident_byte(fold_byte(b)),
        byte_code(fold_byte(b)) == byte_code(b),
{
}

/// Interning round trip: packing an identifier and reading the code back
/// returns the identifier, with upper case folded to lower case and `-` to `_`.
pub proof fn lemma_intern_round_trip(s: Seq<u8>, n: nat)
    requires
        forall|i: int| 0 <= i < s.len() ==> is_ident_byte(#[trigger] s[i]),
        s.len() <= n,
    ensures
        unintern_spec(intern_spec(s), n) == fold_ident(s),
        slots_ok(intern_spec(s), n),
    decreases s.len(),
{
    if s.len() == 0 {
        assert(fold_ident(s) =~= Seq::<u8>::empty());
    } else {
        let t = s.drop_last();
        let b = s.last();
        assert forall|i: int| 0 <= i < t.len() implies is_ident_byte(#[trigger] t[i]) by {
            assert(t[i] == s[i]);
        }
        assert(is_ident_byte(s[s.len() - 1]));
        lemma_intern_round_trip(t, (n - 1) as nat);
        lemma_intern_bound(t);
        lemma_code_round_trip(b);
        let c = byte_code(b);
        let code = intern_spec(s);
        assert(code == intern_spec(t) * 64 + c);
        assert(code % 64 == c && code / 64 == intern_spec(t));
        assert(fold_ident(s) =~= fold_ident(t).push(fold_byte(b)));
    }
}

/// A folded identifier is a fixed point: packing what a code reads back as
/// gives the same code again.
pub proof fn lemma_intern_of_folded(s: Seq<u8>)
    requires
        forall|i: int| 0 <= i < s.len() ==> is_ident_byte(#[trigger] s[i]),
    ensures
        intern_spec(fold_ident(s)) == intern_spec(s),
        forall|i: int| 0 <= i < s.len() ==> is_ident_byte(#[trigger] fold_ident(s)[i]),
    decreases s.len(),
{
    if s.len() > 0 {
        let t = s.drop_last();
        assert forall|i: int| 0 <= i < t.len() implies is_ident_byte(#[trigger] t[i]) by {
            assert(t[i] == s[i]);
        }
        lemma_intern_of_folded(t);
        assert(is_ident_byte(s[s.len() - 1]));
        lemma_code_round_trip(s.last());
        assert(fold_ident(s).drop_last() =~= fold_ident(t));
        assert(fold_ident(s).last() == fold_byte(s.last()));
        assert forall|i: int| 0 <= i < s.len() implies is_ident_byte(
            #[trigger] fold_ident(s)[i],
        ) by {
            lemma_code_round_trip(s[i]);
        }
    }
}

/// What a code of at most `n` slots reads back as has at most `n` characters.
pub proof fn lemma_unintern_len(code: int, n: nat)
    ensures
        unintern_spec(code, n).len() <= n,
    decreases n,
{
    if n != 0 && code % 64 != 0 {
        lemma_unintern_len(code / 64, (n - 1) as nat);
    }
}

/// Reads one six-bit code back into its character.
pub fn unintern_byte(c: u8) -> (b: u8)
    requires
        1 <= c <= 38,
    ensures
        b == code_byte(c as int),
        is_ident_byte(b),
{
    if c <= 26 {
        0x60 + c
    } else if c <= 36 {
        0x30 + (c - 27)
    } else if c == 37 {
        0x5f
    } else {
        0x2e
    }
}

/// An interned identifier: the code itself, comparable and sortable without
/// any table. The zero code is the empty identifier.
#[derive(Clone, Copy, Debug, PartialEq, Eq, Structural, Hash, PartialOrd, Ord)]
pub struct Interned(pub u64);

impl Interned {
    /// The text that this code reads back as.
    pub open spec fn text(&self) -> Seq<u8> {
        unintern_spec(self.0 as int, MAX_IDENT_LEN as nat)
    }

    /// Whether every slot of this code that is read holds a character.
    pub open spec fn readable(&self) -> bool {
        slots_ok(self.0 as int, MAX_IDENT_LEN as nat)
    }

    /// Interns an identifier given as text. The code reads back as the
    /// identifier, folded.
    pub fn from(s: &str) -> (code: Interned)
        requires
            is_ident(s.spec_bytes()),
        ensures
            code.0 == intern_spec(s.spec_bytes()),
            code.readable(),
            code.text() == fold_ident(s.spec_bytes()),
    {
        Self::from_bytes(s.as_bytes())
    }

    /// Interns an identifier given as bytes. The code reads back as the
    /// identifier, folded.
    pub fn from_bytes(bytes: &[u8]) -> (code: Interned)
        requires
            is_ident(bytes@),
        ensures
            code.0 == intern_spec(bytes@),
            code.readable(),
            code.text() == fold_ident(bytes@),
    {
        proof {
            lemma_intern_round_trip(bytes@, MAX_IDENT_LEN as nat);
        }
        Interned(intern(bytes))
    }

    /// The code as a number.
    pub fn into_inner(self) -> (code: u64)
        ensures
            code == self.0,
    {
        self.0
    }

    /// Whether this is the code of the empty identifier.
    pub fn is_empty(&self) -> (empty: bool)
        ensures
            empty == (self.0 == 0),
    {
        self.0 == 0
    }

    /// Tells whether the code can be read back: whether each of the slots
    /// that hold its text holds the code of a character.
    pub fn is_readable(&self) -> (ok: bool)
        ensures
            ok == self.readable(),
    {
        let mut rest: u64 = self.0;
        let mut k: usize = 0;
        while k < MAX_IDENT_LEN && rest % 64 != 0
            invariant
                k <= MAX_IDENT_LEN,
                slots_ok(self.0 as int, MAX_IDENT_LEN as nat) == slots_ok(
                    rest as int,
                    (MAX_IDENT_LEN - k) as nat,
                ),
            decreases MAX_IDENT_LEN - k,
        {
            if rest % 64 > 38 {
                return false;
            }
            rest = rest / 64;
            k += 1;
        }
        true
    }

    /// Writes the text of this code to the front of `buf` and returns its
    /// length; the rest of `buf` stays as it was.
    pub fn un_intern_raw(&self, buf: &mut [u8]) -> (len: usize)
        requires
            old(buf)@.len() >= MAX_IDENT_LEN,
            self.readable(),
        ensures
            len == self.text().len(),
            len <= MAX_IDENT_LEN,
            final(buf)@.len() == old(buf)@.len(),
            final(buf)@.take(len as int) == self.text(),
            final(buf)@.skip(len as int) == old(buf)@.skip(len as int),
    {
        let ghost full = self.text();
        let mut rest: u64 = self.0;
        let mut len: usize = 0;
        while len < MAX_IDENT_LEN && rest % 64 != 0
            invariant
                len <= MAX_IDENT_LEN,
                full.len() == len + unintern_spec(rest as int, (MAX_IDENT_LEN - len) as nat).len(),
            decreases MAX_IDENT_LEN - len,
        {
            rest = rest / 64;
            len += 1;
        }
        rest = self.0;
        let mut k: usize = 0;
        while k < len
            invariant
                k <= len <= MAX_IDENT_LEN,
                len == full.len(),
                full == self.text(),
                buf@.len() == old(buf)@.len(),
                buf@.len() >= MAX_IDENT_LEN,
                slots_ok(rest as int, (MAX_IDENT_LEN - k) as nat),
                unintern_spec(rest as int, (MAX_IDENT_LEN - k) as nat).len() == len - k,
                full =~= unintern_spec(rest as int, (MAX_IDENT_LEN - k) as nat) + buf@.subrange(
                    len - k,
                    len as int,
                ),
                buf@.skip(len as int) == old(buf)@.skip(len as int),
            decreases len - k,
        {
            let ghost before = buf@;
            let c: u8 = (rest % 64) as u8;
            buf[len - k - 1] = unintern_byte(c);
            proof {
                assert(buf@.subrange(len - k - 1, len as int) =~= seq![code_byte(c as int)]
                    + before.subrange(len - k, len as int));
                assert(buf@.skip(len as int) =~= before.skip(len as int));
            }
            rest = rest / 64;
            k += 1;
        }
        proof {
            assert(buf@.subrange(0, len as int) =~= buf@.take(len as int));
        }
        len
    }

    /// The text of this code as a vector of its own.
    pub fn un_intern(&self) -> (text: Vec<u8>)
        requires
            self.readable(),
        ensures
            text@ == self.text(),
    {
        let mut buf: Vec<u8> = vec![0u8; MAX_IDENT_LEN];
        let len = self.un_intern_raw(buf.as_mut_slice());
        buf.truncate(len);
        buf
    }
}

/// An identifier in one of the forms a caller may hold it in.
#[derive(Debug)]
pub enum Ident<'a> {
    Interned(Interned),
    String(String),
    StringRef(&'a str),
}


} // verus!
