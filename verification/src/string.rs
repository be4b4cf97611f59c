//! A growable text that is kept in a storage.

use vstd::prelude::*;
use vstd::string::StringSliceAdditionalSpecFns;
use vstd::utf8::{
    decode_utf8,
    decode_utf8_encode_utf8,
    encode_utf8,
    encode_utf8_decode_utf8,
    encode_utf8_valid_utf8,
    valid_utf8,
};
use crate::base::Storage;
use crate::boxed::{default_accepts, default_is_wf, default_refuses};
use crate::collections::vec::{spec_run_target, Vec};
use crate::error::StorageError;
use crate::handles::Metadata;

verus! {

/// The encoding of two texts, one after the other, is the encoding of the first
/// followed by that of the second.
pub proof fn lemma_encode_concat(first: Seq<char>, second: Seq<char>)
    ensures
        encode_utf8(first + second) == encode_utf8(first) + encode_utf8(second),
    decreases first.len(),
{
    if first.len() == 0 {
        assert(first + second =~= second);
        assert(encode_utf8(first) + encode_utf8(second) =~= encode_utf8(second));
    } else {
        assert((first + second).drop_first() =~= first.drop_first() + second);
        lemma_encode_concat(first.drop_first(), second);
        assert(encode_utf8(first + second) =~= encode_utf8(first) + encode_utf8(second));
    }
}

/// Whether two runs of bytes are the same.
pub fn bytes_eq(a: &[u8], b: &[u8]) -> (same: bool)
    ensures
        same == (a@ == b@),
{
    if a.len() != b.len() {
        return false;
    }
    let mut i: usize = 0;
    while i < a.len()
        invariant
            i <= a@.len(),
            a@.len() == b@.len(),
            forall|j: int| 0 <= j < i ==> a@[j] == b@[j],
        decreases a@.len() - i,
    {
        if a[i] != b[i] {
            return false;
        }
        i += 1;
    }
    assert(a@ =~= b@);
    true
}

/// A text in a storage of type `S`, which the text owns. It is kept as UTF-8.
pub struct String<S: Storage> {
    inner: Vec<u8, S>,
}

impl<S: Storage> View for String<S> {
    type V = Seq<char>;

    /// The characters of the text.
    open spec fn view(&self) -> Seq<char> {
        decode_utf8(self.bytes())
    }
}

impl<S: Storage> String<S> {
    /// The bytes that the text is kept as.
    pub closed spec fn bytes(&self) -> Seq<u8> {
        self.inner@
    }

    /// The number of bytes that the text has room for.
    pub closed spec fn spec_capacity(&self) -> usize {
        self.inner.spec_capacity()
    }

    /// The text is in order: the run of its bytes is, and the bytes are
    /// UTF-8. Every function keeps it so.
    pub closed spec fn wf(&self) -> bool {
        self.inner.wf() && valid_utf8(self.inner@)
    }

    /// The bytes of a text in order are the encoding of its characters.
    pub proof fn lemma_bytes(&self)
        requires
            self.wf(),
        ensures
            valid_utf8(self.bytes()),
            self.bytes() == encode_utf8(self@),
    {
        decode_utf8_encode_utf8(self.bytes());
    }

    /// An empty text in `storage`, which must agree to hold it.
    pub fn new_in(storage: S) -> (s: String<S>)
        requires
            storage.wf(),
            storage.single_verdict(spec_run_target::<u8>(), Metadata::Len(0)) is Ok,
        ensures
            s.wf(),
            s@.len() == 0,
            s.bytes().len() == 0,
    {
        String { inner: Vec::new_in(storage) }
    }

    /// An empty text in `storage`, if that agrees to hold it.
    pub fn try_new_in(storage: S) -> (r: Result<String<S>, StorageError>)
        requires
            storage.wf(),
        ensures
            match r {
                Ok(s) => {
                    &&& storage.single_verdict(spec_run_target::<u8>(), Metadata::Len(0)) is Ok
                    &&& s.wf()
                    &&& s@.len() == 0
                    &&& s.bytes().len() == 0
                },
                Err(e) => storage.single_verdict(spec_run_target::<u8>(), Metadata::Len(0))
                    == Err::<(), _>(e),
            },
    {
        match Vec::try_new_in(storage) {
            Ok(inner) => Ok(String { inner }),
            Err(e) => Err(e),
        }
    }

    /// The text `text` in `storage`, which must agree to hold as many bytes as
    /// the text has.
    pub fn from_str_in(text: &str, storage: S) -> (s: String<S>)
        requires
            storage.wf(),
            storage.single_verdict(
                spec_run_target::<u8>(),
                Metadata::Len(text.spec_bytes().len() as usize),
            ) is Ok,
        ensures
            s.wf(),
            s@ == text@,
    {
        let inner: Vec<u8, S> = Vec::from_slice_in(text.as_bytes(), storage);
        proof {
            encode_utf8_valid_utf8(text@);
            encode_utf8_decode_utf8(text@);
        }
        String { inner }
    }

    /// The text with `rhs` behind it. Where the text cannot grow to hold it,
    /// the text comes back as it was, with the error.
    pub fn add(self, rhs: &str) -> (r: Result<String<S>, (String<S>, StorageError)>)
        requires
            self.wf(),
        ensures
            match r {
                Ok(s) => s.wf() && s@ == self@ + rhs@,
                Err((s, _)) => s.wf() && s@ == self@,
            },
    {
        let bytes = rhs.as_bytes();
        let mut this = self;
        proof {
            self.lemma_bytes();
            lemma_encode_concat(self@, rhs@);
            encode_utf8_valid_utf8(self@ + rhs@);
            encode_utf8_decode_utf8(self@ + rhs@);
        }
        match this.inner.extend(bytes) {
            Ok(()) => Ok(this),
            Err((done, e)) => {
                // Take back what was put there, so that no part of a character stays
                let mut left = done;
                while left > 0
                    invariant
                        left <= done,
                        done < bytes@.len(),
                        this.inner.wf(),
                        this.inner@ == self.inner@ + bytes@.subrange(0, left as int),
                    decreases left,
                {
                    this.inner.pop();
                    left -= 1;
                    assert(this.inner@ =~= self.inner@ + bytes@.subrange(0, left as int));
                }
                assert(this.inner@ =~= self.inner@);
                Err((this, e))
            },
        }
    }

    /// Whether the text is `other`.
    pub fn eq_str(&self, other: &str) -> (same: bool)
        requires
            self.wf(),
        ensures
            same == (self@ == other@),
    {
        proof {
            self.lemma_bytes();
            encode_utf8_decode_utf8(other@);
        }
        let mine = self.inner.iter();
        bytes_eq(mine.as_slice(), other.as_bytes())
    }

    /// The number of bytes of the text.
    pub fn len(&self) -> (n: usize)
        requires
            self.wf(),
        ensures
            n == self.bytes().len(),
    {
        self.inner.len()
    }

    /// Releases the room of the text, and gives the storage back.
    pub fn free(self) -> (storage: S)
        requires
            self.wf(),
        ensures
            storage.wf(),
    {
        self.inner.free()
    }
}

impl<S: Storage + Default> String<S> {
    /// An empty text in a storage of its own, which must agree to hold it.
    pub fn new() -> (s: String<S>)
        requires
            default_accepts::<S>(spec_run_target::<u8>(), Metadata::Len(0)),
        ensures
            s.wf(),
            s@.len() == 0,
            s.bytes().len() == 0,
    {
        String { inner: Vec::new() }
    }

    /// An empty text in a storage of its own, if that agrees to hold it.
    pub fn try_new() -> (r: Result<String<S>, StorageError>)
        requires
            default_is_wf::<S>(),
        ensures
            default_accepts::<S>(spec_run_target::<u8>(), Metadata::Len(0)) ==> r is Ok,
            default_refuses::<S>(spec_run_target::<u8>(), Metadata::Len(0)) ==> r is Err,
            r matches Ok(s) ==> s.wf() && s@.len() == 0 && s.bytes().len() == 0,
    {
        match Vec::try_new() {
            Ok(inner) => Ok(String { inner }),
            Err(e) => Err(e),
        }
    }

    /// The text `text` in a storage of its own, which must agree to hold as
    /// many bytes as the text has.
    pub fn from_str(text: &str) -> (s: String<S>)
        requires
            default_accepts::<S>(
                spec_run_target::<u8>(),
                Metadata::Len(text.spec_bytes().len() as usize),
            ),
        ensures
            s.wf(),
            s@ == text@,
    {
        String::from_str_in(text, S::default())
    }
}

} // verus!
