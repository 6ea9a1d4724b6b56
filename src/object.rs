use vstd::prelude::*;

use crate::error::Error;
use crate::trusted::{
    blake3_hash, blake3_of, encode_url_safe, hasher_finalize, hasher_input, hasher_new,
    hasher_update, is_url_safe_char, url_b64,
};

verus! {

/// Files are read, and hashed, in chunks of this many bytes; a shorter read
/// marks the end of the file.
pub const CHUNK_LEN: usize = 16384;

/// The name under which content is stored: the URL-safe, unpadded base64 text
/// of its BLAKE3 digest.
pub open spec fn object_name(content: Seq<u8>) -> Seq<char> {
    url_b64(blake3_of(content))
}

/// The name of a digest.
fn digest_name(d: Vec<u8>) -> (r: String)
    requires
        d@.len() == 32,
    ensures
        r@ == url_b64(d@),
        r@.len() == 43,
        forall|i: int| 0 <= i < r@.len() ==> is_url_safe_char(#[trigger] r@[i]),
{
    encode_url_safe(d.as_slice())
}

/// The store name of `content`, hashed at once.
pub fn object_name_of(content: &[u8]) -> (r: String)
    ensures
        r@ == object_name(content@),
        r@.len() == 43,
{
    digest_name(blake3_hash(content))
}

/// The name of a layer file: the same naming, applied to the serialized layer.
pub fn layer_name(serialized: &[u8]) -> (r: String)
    ensures
        r@ == object_name(serialized@),
        r@.len() == 43,
        forall|i: int| 0 <= i < r@.len() ==> is_url_safe_char(#[trigger] r@[i]),
{
    digest_name(blake3_hash(serialized))
}

/// Files that all hold the same content all get one store name, so the store
/// holds one object for them.
pub proof fn lemma_identical_contents_one_name(contents: Seq<Seq<u8>>)
    requires
        contents.len() > 0,
        forall|i: int| 0 <= i < contents.len() ==> #[trigger] contents[i] == contents[0],
    ensures
        contents.map_values(|c: Seq<u8>| object_name(c)).to_set() == set![object_name(contents[0])],
{
    let names = contents.map_values(|c: Seq<u8>| object_name(c));
    assert(names[0] == object_name(contents[0]));
    assert(names.to_set() =~= set![object_name(contents[0])]) by {
        assert forall|x: Seq<char>| names.to_set().contains(x) implies x == object_name(contents[0]) by {
            let i = choose|i: int| 0 <= i < names.len() && names[i] == x;
            assert(contents[i] == contents[0]);
        }
        assert(names.contains(object_name(contents[0])));
    }
}

/// Streams the content of one file, chunk by chunk, into its store name.
pub struct ObjectHasher {
    hasher: blake3::Hasher,
}

impl ObjectHasher {
    /// The bytes fed so far.
    pub closed spec fn input(&self) -> Seq<u8> {
        hasher_input(self.hasher)
    }

    pub fn new() -> (r: ObjectHasher)
        ensures
            r.input() == Seq::<u8>::empty(),
    {
        ObjectHasher { hasher: hasher_new() }
    }

    /// Feeds one chunk as read from the file, and says whether to read on: a
    /// read shorter than a full chunk is the last.
    pub fn feed(&mut self, chunk: &[u8]) -> (more: bool)
        ensures
            final(self).input() == old(self).input() + chunk@,
            more == (chunk@.len() == CHUNK_LEN),
    {
        hasher_update(&mut self.hasher, chunk);
        chunk.len() == CHUNK_LEN
    }

    /// The store name of everything fed.
    pub fn finish(&self) -> (r: String)
        ensures
            r@ == object_name(self.input()),
            r@.len() == 43,
    {
        digest_name(hasher_finalize(&self.hasher))
    }
}

/// What an exclusive create of an object file came to.
#[derive(Clone, Copy, Debug, PartialEq, Eq, Structural)]
pub enum CreateResult {
    /// The file was made: this caller writes the content.
    Created,
    /// A file of that name is there already: the content is stored.
    AlreadyExists,
    /// Any other failure, with its OS error number.
    Failed(i32),
}

/// Whether the content must still be copied into the object file, after the
/// exclusive create of that file came to `r`: yes for the one creator, no where
/// the object was already present, an error otherwise.
pub fn copy_needed(r: CreateResult) -> (out: Result<bool, Error>)
    ensures
        r == CreateResult::Created ==> out == Ok::<bool, Error>(true),
        r == CreateResult::AlreadyExists ==> out == Ok::<bool, Error>(false),
        r matches CreateResult::Failed(e) ==> out == Err::<bool, Error>(Error::Io(e)),
{
    match r {
        CreateResult::Created => Ok(true),
        CreateResult::AlreadyExists => Ok(false),
        CreateResult::Failed(e) => Err(Error::Io(e)),
    }
}

} // verus!
