//! A growable string of bytes, stored in the growable array.

use vstd::prelude::*;
use vstd::std_specs::cmp::PartialEqSpecImpl;
use vstd::string::StringSliceAdditionalSpecFns;
use vstd::utf8::*;

verus! {

/// The error of std's UTF-8 validation; nothing is read from it.
#[verifier::external_type_specification]
#[verifier::external_body]
pub struct ExUtf8Error(core::str::Utf8Error);

/// The error of std's formatting; nothing is read from it.
#[verifier::external_type_specification]
#[verifier::external_body]
pub struct ExFmtError(core::fmt::Error);

/// `from_utf8` of std checks that the bytes are valid UTF-8: it returns the
/// string slice over these very bytes if they are, and an error if not.
pub assume_specification[ core::str::from_utf8 ](v: &[u8]) -> (res: Result<
    &str,
    core::str::Utf8Error,
>)
    ensures
        res is Ok <==> valid_utf8(v@),
        res matches Ok(s) ==> s.spec_bytes() == v@,
;

/// Calls `contains` of std's `str` with a `char` as the pattern: whether the
/// character occurs in the string.
#[verifier::external_body]
fn str_contains(pattern: &str, c: char) -> (found: bool)
    ensures
        found == pattern@.contains(c),
{
    pattern.contains(c)
}

/// Whether every byte is an ASCII character.
pub open spec fn is_ascii_bytes(bytes: Seq<u8>) -> bool {
    forall|i: int| 0 <= i < bytes.len() ==> #[trigger] bytes[i] <= 0x7f
}

/// Whether `byte`, read as a character, is one of the characters of
/// `pattern`.
pub open spec fn is_separator(pattern: Seq<char>, byte: u8) -> bool {
    pattern.contains(byte as char)
}

/// Where the piece begins that is open after the first `n` bytes of `text`:
/// behind the last separator among them.
pub open spec fn run_start(text: Seq<u8>, pattern: Seq<char>, n: int) -> int
    decreases n,
{
    if n <= 0 {
        0
    } else if is_separator(pattern, text[n - 1]) {
        n
    } else {
        run_start(text, pattern, n - 1)
    }
}

/// The pieces that a separator has ended within the first `n` bytes of
/// `text`: the non-empty runs of bytes between separators, in order.
pub open spec fn closed_pieces(text: Seq<u8>, pattern: Seq<char>, n: int) -> Seq<Seq<u8>>
    decreases n,
{
    if n <= 0 {
        Seq::empty()
    } else {
        let before = closed_pieces(text, pattern, n - 1);
        let start = run_start(text, pattern, n - 1);
        if is_separator(pattern, text[n - 1]) && start < n - 1 {
            before.push(text.subrange(start, n - 1))
        } else {
            before
        }
    }
}

/// The pieces of `text` between the characters of `pattern`: every maximal
/// non-empty run of bytes that are no separators, in order.
pub open spec fn split_pieces(text: Seq<u8>, pattern: Seq<char>) -> Seq<Seq<u8>> {
    let n = text.len() as int;
    let start = run_start(text, pattern, n);
    if start < n {
        closed_pieces(text, pattern, n).push(text.subrange(start, n))
    } else {
        closed_pieces(text, pattern, n)
    }
}

/// Bytes that are all ASCII are valid UTF-8.
pub proof fn lemma_ascii_is_utf8(bytes: Seq<u8>)
    requires
        is_ascii_bytes(bytes),
    ensures
        valid_utf8(bytes),
{
    assert(bytes.subrange(0, 0) =~= Seq::<u8>::empty());
    assert(partial_valid_utf8(bytes, 0));
    partial_valid_utf8_extend_ascii_block(bytes, 0, bytes.len() as int);
    assert(bytes.subrange(0, bytes.len() as int) =~= bytes);
}

/// A string of bytes. Its view is the sequence of its bytes.
pub struct String {
    data: crate::vec::Vec<u8>,
}

impl View for String {
    type V = Seq<u8>;

    open spec fn view(&self) -> Seq<u8> {
        self.vec()@
    }
}

impl String {
    /// The array that holds the bytes.
    pub closed spec fn vec(&self) -> crate::vec::Vec<u8> {
        self.data
    }

    /// An empty string with room for `c` bytes.
    pub fn with_capacity(c: usize) -> (s: Self)
        ensures
            s@ == Seq::<u8>::empty(),
            s.vec().spec_capacity() == c,
            s.vec().wf(),
    {
        Self { data: crate::vec::Vec::with_capacity(c) }
    }

    /// An empty string that has reserved nothing.
    pub fn new() -> (s: Self)
        ensures
            s@ == Seq::<u8>::empty(),
            s.vec().spec_capacity() == 0,
            s.vec().wf(),
    {
        Self { data: crate::vec::Vec::new() }
    }

    /// The string that holds the bytes of `s`, pushed one after another
    /// onto an empty string.
    pub fn from(s: &str) -> (st: Self)
        requires
            crate::vec::room_for(0, 0, s.spec_bytes().len()),
        ensures
            st@ == s.spec_bytes(),
            st.vec().spec_capacity() == crate::vec::capacity_after_pushes(
                0,
                0,
                s.spec_bytes().len(),
            ),
            st.vec().wf(),
    {
        let mut st = Self::new();
        st.push_str(s);
        proof {
            assert(Seq::<u8>::empty() + s.spec_bytes() =~= s.spec_bytes());
        }
        st
    }

    /// The bytes as a string slice. They must be valid UTF-8.
    pub fn as_str(&self) -> (s: &str)
        requires
            valid_utf8(self@),
        ensures
            s.spec_bytes() == self@,
    {
        core::str::from_utf8(self.data.as_slice()).expect("Error getting string out")
    }

    /// Appends the byte `u`.
    pub fn push(&mut self, u: u8)
        requires
            old(self).vec().can_push(),
        ensures
            final(self)@ == old(self)@.push(u),
            final(self).vec().spec_capacity() == crate::vec::capacity_after_push(
                old(self)@.len(),
                old(self).vec().spec_capacity(),
            ),
            old(self).vec().wf() ==> final(self).vec().wf(),
            forall|n: nat|
                old(self).vec().has_room_for(n + 1) ==> final(self).vec().has_room_for(n),
    {
        self.data.push(u);
    }

    /// Gives up the string for the array of its bytes.
    pub fn into_bytes(self) -> (bytes: crate::vec::Vec<u8>)
        ensures
            bytes == self.vec(),
    {
        self.data
    }

    /// The bytes.
    pub fn as_bytes(&self) -> (bytes: &[u8])
        ensures
            bytes@ == self@,
    {
        self.data.as_slice()
    }

    /// The bytes, to be changed in place.
    pub fn as_bytes_mut(&mut self) -> (bytes: &mut [u8])
        ensures
            bytes@ == old(self)@,
            final(bytes)@ == final(self)@,
            final(self).vec().spec_capacity() == old(self).vec().spec_capacity(),
    {
        self.data.as_mut_slice()
    }

    /// The array that holds the bytes, to be changed in place.
    pub fn as_mut_vec(&mut self) -> (vec: &mut crate::vec::Vec<u8>)
        ensures
            *vec == old(self).vec(),
            final(self).vec() == *final(vec),
    {
        &mut self.data
    }

    /// Appends the bytes of `s`.
    pub fn push_str(&mut self, s: &str)
        requires
            old(self).vec().has_room_for(s.spec_bytes().len()),
        ensures
            final(self)@ == old(self)@ + s.spec_bytes(),
            final(self).vec().spec_capacity() == crate::vec::capacity_after_pushes(
                old(self)@.len(),
                old(self).vec().spec_capacity(),
                s.spec_bytes().len(),
            ),
            old(self).vec().wf() ==> final(self).vec().wf(),
    {
        let bytes = s.as_bytes();
        let mut i: usize = 0;
        while i < bytes.len()
            invariant
                i <= bytes@.len(),
                bytes@ == s.spec_bytes(),
                self@ == old(self)@ + bytes@.subrange(0, i as int),
                self.vec().has_room_for((bytes@.len() - i) as nat),
                crate::vec::capacity_after_pushes(
                    self@.len(),
                    self.vec().spec_capacity(),
                    (bytes@.len() - i) as nat,
                ) == crate::vec::capacity_after_pushes(
                    old(self)@.len(),
                    old(self).vec().spec_capacity(),
                    bytes@.len(),
                ),
                old(self).vec().wf() ==> self.vec().wf(),
            decreases bytes@.len() - i,
        {
            self.data.push(bytes[i]);
            i += 1;
            assert(self@ =~= old(self)@ + bytes@.subrange(0, i as int));
        }
        assert(bytes@.subrange(0, bytes@.len() as int) =~= bytes@);
    }

    /// The number of bytes.
    pub fn len(&self) -> (n: usize)
        ensures
            n == self@.len(),
    {
        self.data.len()
    }

    /// The string that owns the bytes of `bytes`, of which there are `len`,
    /// with room for `cap`.
    pub fn from_raw_parts(bytes: std::vec::Vec<u8>, len: usize, cap: usize) -> (s: Self)
        requires
            len == bytes@.len(),
        ensures
            s@ == bytes@,
            s.vec().spec_capacity() == cap,
    {
        Self { data: crate::vec::Vec::from_raw_parts(bytes, len, cap) }
    }

    /// A string with the same bytes, built from this one read as a string
    /// slice.
    pub fn clone(&self) -> (copy: Self)
        requires
            valid_utf8(self@),
            crate::vec::room_for(0, 0, self@.len()),
        ensures
            copy@ == self@,
            copy.vec().spec_capacity() == crate::vec::capacity_after_pushes(0, 0, self@.len()),
            copy.vec().wf(),
    {
        String::from(self.as_str())
    }
}

impl crate::hash::Hash for String {
    open spec fn spec_hash(&self) -> usize {
        crate::hash::murmur_hash(self@, crate::hash::BYTES_SEED) as usize
    }

    /// The hash of the bytes.
    fn hash(&self) -> (h: usize) {
        crate::hash::Hash::hash(&self.as_bytes())
    }
}

/// The pieces of a string that was split, handed out one after another.
pub struct Split {
    v: crate::vec::Vec<String>,
    idx: usize,
}

impl Split {
    /// All the pieces, those handed out already too.
    pub closed spec fn pieces(&self) -> Seq<Seq<u8>> {
        self.v@.map_values(|s: String| s@)
    }

    /// The number of pieces handed out so far.
    pub closed spec fn position(&self) -> nat {
        self.idx as nat
    }

    /// No more pieces have been handed out than there are, and every piece
    /// is ASCII and short enough to be built anew by pushes.
    pub closed spec fn wf(&self) -> bool {
        &&& self.idx <= self.v@.len()
        &&& forall|i: int|
            0 <= i < self.v@.len() ==> is_ascii_bytes((#[trigger] self.v@[i])@)
                && crate::vec::room_for(0, 0, self.v@[i]@.len())
    }

    /// The piece that is handed out next, if one is left.
    pub open spec fn upcoming(&self) -> Option<Seq<u8>> {
        if self.position() < self.pieces().len() {
            Some(self.pieces()[self.position() as int])
        } else {
            None
        }
    }

    /// The next piece, if one is left: a new string with its bytes.
    pub fn next(&mut self) -> (piece: Option<String>)
        requires
            old(self).wf(),
        ensures
            final(self).wf(),
            final(self).pieces() == old(self).pieces(),
            match old(self).upcoming() {
                Some(bytes) => {
                    &&& piece.is_some()
                    &&& piece.unwrap()@ == bytes
                    &&& piece.unwrap().vec().spec_capacity() == crate::vec::capacity_after_pushes(
                        0,
                        0,
                        bytes.len(),
                    )
                    &&& final(self).position() == old(self).position() + 1
                },
                None => {
                    &&& piece.is_none()
                    &&& final(self).position() == old(self).position()
                },
            },
    {
        if self.idx < self.v.len() {
            self.idx += 1;
            let piece = self.v.get_unchecked(self.idx - 1);
            proof {
                lemma_ascii_is_utf8(piece@);
            }
            return Some(piece.clone());
        }
        None
    }
}

/// The lines of a string, handed out one after another.
pub struct Lines(Split);

impl Lines {
    /// The pieces that the lines are handed out from.
    pub closed spec fn split(&self) -> Split {
        self.0
    }

    /// The next line, if one is left: a new string with its bytes.
    pub fn next(&mut self) -> (line: Option<String>)
        requires
            old(self).split().wf(),
        ensures
            final(self).split().wf(),
            final(self).split().pieces() == old(self).split().pieces(),
            match old(self).split().upcoming() {
                Some(bytes) => {
                    &&& line.is_some()
                    &&& line.unwrap()@ == bytes
                    &&& line.unwrap().vec().spec_capacity() == crate::vec::capacity_after_pushes(
                        0,
                        0,
                        bytes.len(),
                    )
                    &&& final(self).split().position() == old(self).split().position() + 1
                },
                None => {
                    &&& line.is_none()
                    &&& final(self).split().position() == old(self).split().position()
                },
            },
    {
        self.0.next()
    }
}

impl String {
    /// Splits the string, which must be ASCII, at every character of
    /// `pattern`, and leaves out the empty pieces.
    pub fn split(&self, pattern: &str) -> (split: Split)
        requires
            is_ascii_bytes(self@),
            self@.len() <= usize::MAX / 2 + 1,
        ensures
            split.wf(),
            split.position() == 0,
            split.pieces() == split_pieces(self@, pattern@),
    {
        let mut v = crate::vec::Vec::<String>::new();
        let mut st = String::new();
        let mut i: usize = 0;
        let n: usize = self.len();
        let ghost text = self@;
        while i < n
            invariant
                i <= n,
                n == text.len(),
                text == self@,
                is_ascii_bytes(text),
                n <= usize::MAX / 2 + 1,
                v.wf(),
                st.vec().wf(),
                v@.len() + st@.len() <= i,
                v@.map_values(|s: String| s@) == closed_pieces(text, pattern@, i as int),
                st@ == text.subrange(run_start(text, pattern@, i as int), i as int),
                0 <= run_start(text, pattern@, i as int) <= i,
                forall|j: int|
                    0 <= j < v@.len() ==> is_ascii_bytes((#[trigger] v@[j])@) && v@[j]@.len() <= n,
            decreases n - i,
        {
            let c: u8 = *self.data.get_unchecked(i);
            let ghost start = run_start(text, pattern@, i as int);
            if str_contains(pattern, c as char) {
                if st.len() > 0 {
                    let ghost before = v@;
                    v.push(st);
                    proof {
                        assert(v@.map_values(|s: String| s@) =~= before.map_values(
                            |s: String| s@,
                        ).push(text.subrange(start, i as int)));
                    }
                }
                st = String::new();
                proof {
                    assert(text.subrange(i + 1, i + 1) =~= Seq::<u8>::empty());
                }
            } else {
                st.push(c);
                proof {
                    assert(st@ =~= text.subrange(start, i + 1));
                }
            }
            i += 1;
        }
        if st.len() > 0 {
            let ghost before = v@;
            v.push(st);
            proof {
                assert(v@.map_values(|s: String| s@) =~= before.map_values(|s: String| s@).push(
                    text.subrange(run_start(text, pattern@, n as int), n as int),
                ));
            }
        }
        proof {
            assert forall|j: int| 0 <= j < v@.len() implies crate::vec::room_for(
                0,
                0,
                (#[trigger] v@[j])@.len(),
            ) by {
                crate::vec::lemma_room_for(0, 0, v@[j]@.len());
            }
        }
        Split { v: v, idx: 0 }
    }

    /// The lines of the string, which must be ASCII: its pieces between
    /// line feeds, without the empty ones.
    pub fn lines(&self) -> (lines: Lines)
        requires
            is_ascii_bytes(self@),
            self@.len() <= usize::MAX / 2 + 1,
        ensures
            lines.split().wf(),
            lines.split().position() == 0,
            lines.split().pieces() == split_pieces(self@, "\n"@),
    {
        Lines(self.split("\n"))
    }

    /// Appends the bytes of `s`.
    pub fn write_str(&mut self, s: &str) -> (done: Result<(), core::fmt::Error>)
        requires
            old(self).vec().has_room_for(s.spec_bytes().len()),
        ensures
            done is Ok,
            final(self)@ == old(self)@ + s.spec_bytes(),
            final(self).vec().spec_capacity() == crate::vec::capacity_after_pushes(
                old(self)@.len(),
                old(self).vec().spec_capacity(),
                s.spec_bytes().len(),
            ),
    {
        self.push_str(s);
        Ok(())
    }

    /// Appends the character `c`, cut to one byte.
    pub fn write_char(&mut self, c: char) -> (done: Result<(), core::fmt::Error>)
        requires
            old(self).vec().can_push(),
        ensures
            done is Ok,
            final(self)@ == old(self)@.push(c as u8),
            final(self).vec().spec_capacity() == crate::vec::capacity_after_push(
                old(self)@.len(),
                old(self).vec().spec_capacity(),
            ),
    {
        self.push(
            #[verifier::truncate]
            (c as u8),
        );
        Ok(())
    }
}

/// Appending another value to a value.
pub trait Append<T> {
    /// Whether `other` can be appended.
    spec fn can_append(&self, other: T) -> bool;

    /// Whether `result` is this value with `other` appended.
    spec fn appended(&self, other: T, result: &Self) -> bool;

    /// Appends `other`.
    fn append(&mut self, other: T)
        requires
            old(self).can_append(other),
        ensures
            old(self).appended(other, final(self)),
    ;
}

impl Append<&String> for String {
    open spec fn can_append(&self, other: &String) -> bool {
        valid_utf8(other@) && self.vec().has_room_for(other@.len())
    }

    open spec fn appended(&self, other: &String, result: &Self) -> bool {
        result@ == self@ + other@
    }

    /// Appends the bytes of `s`, read as a string slice.
    fn append(&mut self, s: &String) {
        self.push_str(s.as_str());
    }
}

impl PartialEq<String> for String {
    fn eq(&self, other: &Self) -> (equal: bool) {
        let ls = self.data.len();
        let lo = other.data.len();
        if ls != lo {
            return false;
        }
        let mut i: usize = 0;
        while i < ls
            invariant
                i <= ls,
                ls == self@.len(),
                ls == other@.len(),
                self@.subrange(0, i as int) == other@.subrange(0, i as int),
            decreases ls - i,
        {
            if *self.data.get_unchecked(i) != *other.data.get_unchecked(i) {
                assert(self@[i as int] != other@[i as int]);
                return false;
            }
            i += 1;
            assert(self@.subrange(0, i as int) =~= self@.subrange(0, i - 1).push(self@[i - 1]));
            assert(other@.subrange(0, i as int) =~= other@.subrange(0, i - 1).push(other@[i - 1]));
        }
        assert(self@ =~= self@.subrange(0, ls as int));
        assert(other@ =~= other@.subrange(0, ls as int));
        true
    }
}

impl PartialEqSpecImpl<String> for String {
    open spec fn obeys_eq_spec() -> bool {
        true
    }

    open spec fn eq_spec(&self, other: &String) -> bool {
        self@ == other@
    }
}

impl Eq for String {

}

impl PartialEq<&str> for String {
    fn eq(&self, other: &&str) -> (equal: bool) {
        let ob = (*other).as_bytes();
        let ls = self.data.len();
        let lo = ob.len();
        if ls != lo {
            return false;
        }
        let mut i: usize = 0;
        while i < ls
            invariant
                i <= ls,
                ls == self@.len(),
                ls == ob@.len(),
                ob@ == other.spec_bytes(),
                self@.subrange(0, i as int) == ob@.subrange(0, i as int),
            decreases ls - i,
        {
            if *self.data.get_unchecked(i) != ob[i] {
                assert(self@[i as int] != ob@[i as int]);
                return false;
            }
            i += 1;
            assert(self@.subrange(0, i as int) =~= self@.subrange(0, i - 1).push(self@[i - 1]));
            assert(ob@.subrange(0, i as int) =~= ob@.subrange(0, i - 1).push(ob@[i - 1]));
        }
        assert(self@ =~= self@.subrange(0, ls as int));
        assert(ob@ =~= ob@.subrange(0, ls as int));
        true
    }
}

impl PartialEqSpecImpl<&str> for String {
    open spec fn obeys_eq_spec() -> bool {
        true
    }

    open spec fn eq_spec(&self, other: &&str) -> bool {
        self@ == other.spec_bytes()
    }
}

} // verus!
