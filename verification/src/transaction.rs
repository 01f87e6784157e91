//! Transaction data structures: base64url fields, tags, the deep-hash input
//! tree, and the assembly of a transaction from a raw byte buffer.

use vstd::prelude::*;
use vstd::string::StringSliceAdditionalSpecFns;

use crate::encoding::dec_bytes;
use crate::error::Error;
use crate::merkle::{Node, Proof};
use crate::model::ItemV;

verus! {

/// A byte buffer rendered as base64url without padding wherever the
/// transaction is serialized.
#[derive(Debug, PartialEq)]
pub struct Base64(pub Vec<u8>);

/// The base64url rendering, without padding, of a byte run; its value comes
/// only from the trusted wrappers below.
pub uninterp spec fn base64url_of(d: Seq<u8>) -> Seq<char>;

/// What base64url decoding, without padding, makes of a string: the decoded
/// bytes, or nothing when the string is not well-formed base64url.
pub uninterp spec fn base64url_decode_of(s: Seq<char>) -> Option<Seq<u8>>;

/// Relies on `base64::encode_config` with `URL_SAFE_NO_PAD`: the base64url
/// rendering without padding, a function of the bytes alone; decoding with
/// the same config inverts it, so decoding the returned string recovers
/// the bytes.
#[verifier::external_body]
fn b64_encode(data: &[u8]) -> (r: String)
    ensures
        r@ == base64url_of(data@),
        base64url_decode_of(r@) == Some(data@),
{
    base64::encode_config(data, base64::URL_SAFE_NO_PAD)
}

/// The error type of the base64 crate.
#[verifier::external_type_specification]
#[verifier::external_body]
pub struct ExDecodeError(base64::DecodeError);

/// Relies on `base64::decode_config` with `URL_SAFE_NO_PAD`: decoding is a
/// function of the string alone, and fails exactly on strings that are not
/// well-formed base64url without padding.
#[verifier::external_body]
fn b64_decode(s: &str) -> (r: Result<Vec<u8>, base64::DecodeError>)
    ensures
        base64url_decode_of(s@) is Some <==> r is Ok,
        r is Ok ==> r->Ok_0@ == base64url_decode_of(s@)->Some_0,
{
    base64::decode_config(s, base64::URL_SAFE_NO_PAD)
}

/// Relies on `String::from_utf8`: succeeds exactly on valid UTF-8 and then
/// returns the string holding those bytes.
#[verifier::external_body]
fn utf8_string(v: Vec<u8>) -> (r: Result<String, Error>)
    ensures
        r is Ok <==> vstd::utf8::valid_utf8(v@),
        r is Ok ==> vstd::utf8::encode_utf8(r->Ok_0@) == v@,
{
    String::from_utf8(v).map_err(|_| Error::InvalidTags)
}

impl Default for Base64 {
    /// The default value is the empty buffer.
    fn default() -> (r: Self)
        ensures
            r.0@ == Seq::<u8>::empty(),
    {
        Base64(Vec::new())
    }
}

impl Clone for Base64 {
    /// A clone holds the same bytes.
    fn clone(&self) -> (r: Self)
        ensures
            r.0@ == self.0@,
    {
        let v = self.0.clone();
        proof {
            assert(v@ =~= self.0@);
        }
        Base64(v)
    }
}

/// Converts a base64url encoded string to a `Base64` buffer.
impl core::str::FromStr for Base64 {
    type Err = base64::DecodeError;

    fn from_str(s: &str) -> Result<Self, Self::Err> {
        Base64::from_base64_str(s)
    }
}

impl Base64 {
    /// Decodes a base64url string, without padding, into the bytes it
    /// encodes; a string that is not well-formed base64url is rejected.
    /// Decoding inverts [`Base64::to_base64_string`].
    pub fn from_base64_str(s: &str) -> (r: Result<Self, base64::DecodeError>)
        ensures
            r is Ok <==> base64url_decode_of(s@) is Some,
            r is Ok ==> r->Ok_0.0@ == base64url_decode_of(s@)->Some_0,
    {
        match b64_decode(s) {
            Ok(v) => Ok(Base64(v)),
            Err(e) => Err(e),
        }
    }

    /// Wraps the UTF-8 bytes of a string.
    pub fn from_utf8_str(str: &str) -> (r: Result<Self, Error>)
        ensures
            r is Ok,
            r->Ok_0.0@ == str.spec_bytes(),
    {
        let bytes = str.as_bytes();
        Ok(Self(vstd::slice::slice_to_vec(bytes)))
    }

    /// Reads the buffer back as UTF-8; bytes that are not UTF-8 are
    /// rejected.
    pub fn to_utf8_string(&self) -> (r: Result<String, Error>)
        ensures
            r is Ok <==> vstd::utf8::valid_utf8(self.0@),
            r is Ok ==> vstd::utf8::encode_utf8(r->Ok_0@) == self.0@,
            r is Err ==> r == Err::<String, Error>(Error::InvalidTags),
    {
        let v = self.0.clone();
        proof {
            assert(v@ =~= self.0@);
        }
        match utf8_string(v) {
            Ok(s) => Ok(s),
            Err(_) => Err(Error::InvalidTags),
        }
    }

    /// The buffer rendered as base64url without padding.
    pub fn to_base64_string(&self) -> (r: String)
        ensures
            r@ == base64url_of(self.0@),
    {
        b64_encode(self.0.as_slice())
    }
}

/// A transaction tag: a name and a value.
#[derive(Debug, PartialEq)]
pub struct Tag<T> {
    pub name: T,
    pub value: T,
}

impl Clone for Tag<Base64> {
    /// A clone holds the same name and value bytes.
    fn clone(&self) -> (r: Self)
        ensures
            r.name.0@ == self.name.0@,
            r.value.0@ == self.value.0@,
    {
        Tag { name: self.name.clone(), value: self.value.clone() }
    }
}

/// Builds a tag from two UTF-8 strings.
pub trait FromUtf8Strs<T>: Sized {
    /// The built value holds exactly these two strings.
    spec fn utf8_built(name: Seq<char>, value: Seq<char>, t: T) -> bool;

    /// Builds the value; every pair of strings is accepted.
    fn from_utf8_strs(name: &str, value: &str) -> (r: Result<T, Error>)
        ensures
            r is Ok,
            Self::utf8_built(name@, value@, r->Ok_0),
    ;
}

impl FromUtf8Strs<Tag<Base64>> for Tag<Base64> {
    open spec fn utf8_built(name: Seq<char>, value: Seq<char>, t: Tag<Base64>) -> bool {
        t.name.0@ == vstd::utf8::encode_utf8(name) && t.value.0@ == vstd::utf8::encode_utf8(value)
    }

    fn from_utf8_strs(name: &str, value: &str) -> (r: Result<Tag<Base64>, Error>) {
        let b64_name = match Base64::from_utf8_str(name) {
            Ok(b) => b,
            Err(e) => {
                return Err(e);
            },
        };
        let b64_value = match Base64::from_utf8_str(value) {
            Ok(b) => b,
            Err(e) => {
                return Err(e);
            },
        };
        Ok(Self { name: b64_name, value: b64_value })
    }
}

impl FromUtf8Strs<Tag<String>> for Tag<String> {
    open spec fn utf8_built(name: Seq<char>, value: Seq<char>, t: Tag<String>) -> bool {
        t.name@ == name && t.value@ == value
    }

    fn from_utf8_strs(name: &str, value: &str) -> (r: Result<Tag<String>, Error>) {
        let name = name.to_owned();
        let value = value.to_owned();
        Ok(Self { name, value })
    }
}

/// A recursive structure of byte blobs and ordered lists, deep hashed into
/// the signing digest.
#[derive(Debug, PartialEq)]
pub enum DeepHashItem {
    Blob(Vec<u8>),
    List(Vec<DeepHashItem>),
}

/// The value of a deep-hash input.
pub open spec fn item_v(item: DeepHashItem) -> ItemV
    decreases item, 1int,
{
    match item {
        DeepHashItem::Blob(b) => ItemV::Blob(b@),
        DeepHashItem::List(l) => ItemV::List(items_v(l@)),
    }
}

/// The values of a sequence of deep-hash inputs, in order.
pub open spec fn items_v(s: Seq<DeepHashItem>) -> Seq<ItemV>
    decreases s, 0int,
{
    if s.len() == 0 {
        Seq::empty()
    } else {
        seq![item_v(s[0])] + items_v(s.subrange(1, s.len() as int))
    }
}

/// The values of the inputs are their values, one by one.
pub proof fn lemma_items_v_index(s: Seq<DeepHashItem>)
    ensures
        items_v(s).len() == s.len(),
        forall|i: int| 0 <= i < s.len() ==> items_v(s)[i] == item_v(s[i]),
    decreases s.len(),
{
    if s.len() > 0 {
        lemma_items_v_index(s.subrange(1, s.len() as int));
    }
}

impl DeepHashItem {
    /// A blob holding a copy of the given bytes.
    pub fn from_item(item: &[u8]) -> (r: DeepHashItem)
        ensures
            item_v(r) == ItemV::Blob(item@),
    {
        Self::Blob(vstd::slice::slice_to_vec(item))
    }

    /// A list holding the given children, in order.
    pub fn from_children(children: Vec<DeepHashItem>) -> (r: DeepHashItem)
        ensures
            item_v(r) == ItemV::List(items_v(children@)),
    {
        Self::List(children)
    }
}

/// Maps a value to the deep-hash input that stands for it when a
/// transaction is signed.
pub trait ToItems {
    /// Whether the value can be mapped.
    spec fn to_item_ok(&self) -> bool;

    /// The deep-hash input the value maps to.
    spec fn item_spec(&self) -> ItemV;

    /// Maps the value; inputs that cannot be mapped are excluded.
    fn to_deep_hash_item(&self) -> (r: Result<DeepHashItem, Error>)
        requires
            self.to_item_ok(),
        ensures
            r is Ok,
            item_v(r->Ok_0) == self.item_spec(),
    ;
}

impl ToItems for Tag<Base64> {
    open spec fn to_item_ok(&self) -> bool {
        true
    }

    /// A tag maps to the two-blob list of its name and value bytes.
    open spec fn item_spec(&self) -> ItemV {
        ItemV::List(seq![ItemV::Blob(self.name.0@), ItemV::Blob(self.value.0@)])
    }

    fn to_deep_hash_item(&self) -> (r: Result<DeepHashItem, Error>) {
        let mut children: Vec<DeepHashItem> = Vec::new();
        children.push(DeepHashItem::from_item(self.name.0.as_slice()));
        children.push(DeepHashItem::from_item(self.value.0.as_slice()));
        proof {
            lemma_items_v_index(children@);
            assert(items_v(children@) =~= seq![
                ItemV::Blob(self.name.0@),
                ItemV::Blob(self.value.0@),
            ]);
        }
        Ok(DeepHashItem::from_children(children))
    }
}

/// The deep-hash inputs of a run of tags, one per tag.
pub open spec fn tag_items(s: Seq<Tag<Base64>>) -> Seq<ItemV> {
    Seq::new(s.len(), |i: int| s[i].item_spec())
}

impl ToItems for Vec<Tag<Base64>> {
    open spec fn to_item_ok(&self) -> bool {
        true
    }

    /// A non-empty tag list maps to the list of its tags' items; an empty
    /// one maps to the empty blob.
    open spec fn item_spec(&self) -> ItemV {
        if self@.len() > 0 {
            ItemV::List(tag_items(self@))
        } else {
            ItemV::Blob(Seq::empty())
        }
    }

    fn to_deep_hash_item(&self) -> (r: Result<DeepHashItem, Error>) {
        if self.len() == 0 {
            let empty: Vec<u8> = Vec::new();
            return Ok(DeepHashItem::Blob(empty));
        }
        let mut children: Vec<DeepHashItem> = Vec::new();
        let mut i: usize = 0;
        while i < self.len()
            invariant
                i <= self@.len(),
                children@.len() == i,
                forall|j: int| 0 <= j < i ==> item_v(#[trigger] children@[j]) == self@[j].item_spec(),
            decreases self@.len() - i,
        {
            let item = match self[i].to_deep_hash_item() {
                Ok(t) => t,
                Err(e) => {
                    return Err(e);
                },
            };
            children.push(item);
            i = i + 1;
        }
        proof {
            lemma_items_v_index(children@);
            assert(items_v(children@) =~= tag_items(self@));
        }
        Ok(DeepHashItem::from_children(children))
    }
}

/// A transaction: the fields of the wire record, and the chunks and proofs
/// derived from its data.
#[derive(Debug, PartialEq)]
pub struct Transaction {
    pub format: u8,
    pub id: Base64,
    pub last_tx: Base64,
    pub owner: Base64,
    pub tags: Vec<Tag<Base64>>,
    pub target: Base64,
    pub quantity: u64,
    pub data_root: Base64,
    pub data: Base64,
    pub data_size: u64,
    pub reward: u64,
    pub signature: Base64,
    pub chunks: Vec<Node>,
    pub proofs: Vec<Proof>,
}

impl Default for Transaction {
    /// The default transaction: format zero, every field empty.
    fn default() -> (r: Self)
        ensures
            r.format == 0,
            r.id.0@ == Seq::<u8>::empty(),
            r.last_tx.0@ == Seq::<u8>::empty(),
            r.owner.0@ == Seq::<u8>::empty(),
            r.tags@.len() == 0,
            r.target.0@ == Seq::<u8>::empty(),
            r.quantity == 0,
            r.data_root.0@ == Seq::<u8>::empty(),
            r.data.0@ == Seq::<u8>::empty(),
            r.data_size == 0,
            r.reward == 0,
            r.signature.0@ == Seq::<u8>::empty(),
            r.chunks@.len() == 0,
            r.proofs@.len() == 0,
    {
        Transaction {
            format: 0,
            id: Base64(Vec::new()),
            last_tx: Base64(Vec::new()),
            owner: Base64(Vec::new()),
            tags: Vec::new(),
            target: Base64(Vec::new()),
            quantity: 0,
            data_root: Base64(Vec::new()),
            data: Base64(Vec::new()),
            data_size: 0,
            reward: 0,
            signature: Base64(Vec::new()),
            chunks: Vec::new(),
            proofs: Vec::new(),
        }
    }
}

/// Clones a run of tags, preserving each name and value.
fn clone_tags(tags: &Vec<Tag<Base64>>) -> (r: Vec<Tag<Base64>>)
    ensures
        r@.len() == tags@.len(),
        forall|i: int|
            0 <= i < tags@.len() ==> (#[trigger] r@[i]).name.0@ == tags@[i].name.0@
                && r@[i].value.0@ == tags@[i].value.0@,
{
    let mut out: Vec<Tag<Base64>> = Vec::new();
    let mut i: usize = 0;
    while i < tags.len()
        invariant
            i <= tags@.len(),
            out@.len() == i,
            forall|j: int|
                0 <= j < i ==> (#[trigger] out@[j]).name.0@ == tags@[j].name.0@
                    && out@[j].value.0@ == tags@[j].value.0@,
        decreases tags@.len() - i,
    {
        let t = Tag { name: tags[i].name.clone(), value: tags[i].value.clone() };
        out.push(t);
        i = i + 1;
    }
    out
}

impl Transaction {
    /// A copy of the transaction with its data, chunks and proofs left out;
    /// everything else is preserved.
    pub fn clone_with_no_data(&self) -> (r: Result<Self, Error>)
        ensures
            r is Ok,
            ({
                let t = r->Ok_0;
                &&& t.format == self.format
                &&& t.id.0@ == self.id.0@
                &&& t.last_tx.0@ == self.last_tx.0@
                &&& t.owner.0@ == self.owner.0@
                &&& t.tags@.len() == self.tags@.len()
                &&& forall|i: int|
                    0 <= i < self.tags@.len() ==> (#[trigger] t.tags@[i]).name.0@
                        == self.tags@[i].name.0@ && t.tags@[i].value.0@ == self.tags@[i].value.0@
                &&& t.target.0@ == self.target.0@
                &&& t.quantity == self.quantity
                &&& t.data_root.0@ == self.data_root.0@
                &&& t.data.0@ == Seq::<u8>::empty()
                &&& t.data_size == self.data_size
                &&& t.reward == self.reward
                &&& t.signature.0@ == self.signature.0@
                &&& t.chunks@.len() == 0
                &&& t.proofs@.len() == 0
            }),
    {
        Ok(
            Self {
                format: self.format,
                id: self.id.clone(),
                last_tx: self.last_tx.clone(),
                owner: self.owner.clone(),
                tags: clone_tags(&self.tags),
                target: self.target.clone(),
                quantity: self.quantity,
                data_root: self.data_root.clone(),
                data: Base64::default(),
                data_size: self.data_size,
                reward: self.reward,
                signature: self.signature.clone(),
                chunks: Vec::new(),
                proofs: Vec::new(),
            },
        )
    }

    /// The upload record for one chunk: the transaction's data root and
    /// size, the chunk's proof bytes and offset, and the chunk's bytes
    /// sliced from the data.
    pub fn get_chunk(&self, idx: usize) -> (r: Result<Chunk, Error>)
        requires
            idx < self.chunks@.len(),
            idx < self.proofs@.len(),
            self.chunks@[idx as int].min_byte_range <= self.chunks@[idx as int].max_byte_range,
            self.chunks@[idx as int].max_byte_range <= self.data.0@.len(),
        ensures
            r is Ok,
            ({
                let c = r->Ok_0;
                &&& c.data_root.0@ == self.data_root.0@
                &&& c.data_size == self.data_size
                &&& c.data_path.0@ == self.proofs@[idx as int].proof@
                &&& c.offset == self.proofs@[idx as int].offset
                &&& c.chunk.0@ == self.data.0@.subrange(
                    self.chunks@[idx as int].min_byte_range as int,
                    self.chunks@[idx as int].max_byte_range as int,
                )
            }),
    {
        let node = &self.chunks[idx];
        let chunk_bytes = crate::encoding::copy_range(
            self.data.0.as_slice(),
            node.min_byte_range,
            node.max_byte_range,
        );
        let path = self.proofs[idx].clone();
        Ok(
            Chunk {
                data_root: self.data_root.clone(),
                data_size: self.data_size,
                data_path: Base64(path.proof),
                offset: path.offset,
                chunk: Base64(chunk_bytes),
            },
        )
    }
}

/// The upload record derived from a transaction for one chunk.
#[derive(Debug, PartialEq)]
pub struct Chunk {
    pub data_root: Base64,
    pub data_size: u64,
    pub data_path: Base64,
    pub offset: usize,
    pub chunk: Base64,
}

impl ToItems for Transaction {
    /// Only the two known schema versions can be mapped.
    open spec fn to_item_ok(&self) -> bool {
        self.format == 1 || self.format == 2
    }

    /// The schema-versioned field list that is deep hashed for signing: one
    /// field ordering for the legacy schema, another for the current one.
    open spec fn item_spec(&self) -> ItemV {
        if self.format == 1 {
            ItemV::List(
                seq![
                    ItemV::Blob(self.owner.0@),
                    ItemV::Blob(self.target.0@),
                    ItemV::Blob(self.data.0@),
                    ItemV::Blob(dec_bytes(self.quantity as nat)),
                    ItemV::Blob(dec_bytes(self.reward as nat)),
                    ItemV::Blob(self.last_tx.0@),
                    self.tags.item_spec(),
                ],
            )
        } else {
            ItemV::List(
                seq![
                    ItemV::Blob(dec_bytes(self.format as nat)),
                    ItemV::Blob(self.owner.0@),
                    ItemV::Blob(self.target.0@),
                    ItemV::Blob(dec_bytes(self.quantity as nat)),
                    ItemV::Blob(dec_bytes(self.reward as nat)),
                    ItemV::Blob(self.last_tx.0@),
                    self.tags.item_spec(),
                    ItemV::Blob(dec_bytes(self.data_size as nat)),
                    ItemV::Blob(self.data_root.0@),
                ],
            )
        }
    }

    fn to_deep_hash_item(&self) -> (r: Result<DeepHashItem, Error>) {
        let tags_item = match self.tags.to_deep_hash_item() {
            Ok(t) => t,
            Err(e) => {
                return Err(e);
            },
        };
        let mut children: Vec<DeepHashItem> = Vec::new();
        if self.format == 1 {
            children.push(DeepHashItem::from_item(self.owner.0.as_slice()));
            children.push(DeepHashItem::from_item(self.target.0.as_slice()));
            children.push(DeepHashItem::from_item(self.data.0.as_slice()));
            children.push(DeepHashItem::Blob(crate::encoding::u64_dec_bytes(self.quantity)));
            children.push(DeepHashItem::Blob(crate::encoding::u64_dec_bytes(self.reward)));
            children.push(DeepHashItem::from_item(self.last_tx.0.as_slice()));
            children.push(tags_item);
        } else if self.format != 2 {
            // excluded by the schema precondition; any other version is an
            // internal-invariant failure rather than a reachable path
            return Err(Error::InvalidNode);
        } else {
            children.push(DeepHashItem::Blob(crate::encoding::u64_dec_bytes(self.format as u64)));
            children.push(DeepHashItem::from_item(self.owner.0.as_slice()));
            children.push(DeepHashItem::from_item(self.target.0.as_slice()));
            children.push(DeepHashItem::Blob(crate::encoding::u64_dec_bytes(self.quantity)));
            children.push(DeepHashItem::Blob(crate::encoding::u64_dec_bytes(self.reward)));
            children.push(DeepHashItem::from_item(self.last_tx.0.as_slice()));
            children.push(tags_item);
            children.push(DeepHashItem::Blob(crate::encoding::u64_dec_bytes(self.data_size)));
            children.push(DeepHashItem::from_item(self.data_root.0.as_slice()));
        }
        proof {
            lemma_items_v_index(children@);
            assert(items_v(children@) =~= self.item_spec()->List_0);
        }
        Ok(DeepHashItem::from_children(children))
    }
}

/// How many chunks a buffer of length `l` keeps: all of them, except that a
/// zero-length trailing chunk is discarded together with its proof.
pub open spec fn kept_count(l: nat) -> nat {
    let rs = crate::merkle::chunk_ranges(l);
    let n = rs.len();
    if rs[n - 1].0 == rs[n - 1].1 {
        (n - 1) as nat
    } else {
        n
    }
}

/// What `merklize` promises of its result: a current-schema transaction
/// holding the data, its root id, and the kept chunks and proofs, with a
/// consistent tree view behind the root id; every other field is empty.
pub open spec fn merklize_post(data: Seq<u8>, t: Transaction) -> bool {
    let ltv = crate::merkle::leaves_tv_of(data);
    let root = crate::model::root_tv(ltv);
    let kept = kept_count(data.len());
    &&& t.format == 2
    &&& t.data_size == data.len()
    &&& t.data.0@ == data
    &&& t.data_root.0@ == root.info().id
    &&& crate::merkle::views_of(t.chunks@) == ltv.subrange(0, kept as int)
    &&& crate::merkle::proof_views(t.proofs@) == crate::model::proofs_tv(
        root,
        Seq::empty(),
    ).subrange(0, kept as int)
    &&& forall|i: int| 0 <= i < t.chunks@.len() ==> crate::merkle::shape_ok(#[trigger] t.chunks@[i])
    &&& crate::model::tv_consistent(root)
    &&& t.id.0@ == Seq::<u8>::empty()
    &&& t.last_tx.0@ == Seq::<u8>::empty()
    &&& t.owner.0@ == Seq::<u8>::empty()
    &&& t.tags@.len() == 0
    &&& t.target.0@ == Seq::<u8>::empty()
    &&& t.quantity == 0
    &&& t.reward == 0
    &&& t.signature.0@ == Seq::<u8>::empty()
}

/// Builds a current-schema transaction from a raw byte buffer: chunks the
/// buffer, reduces the chunk leaves to a root, resolves one proof per leaf,
/// and discards a zero-length trailing chunk together with its proof.
pub fn merklize(data: Vec<u8>) -> (r: Result<Transaction, Error>)
    ensures
        r is Ok,
        merklize_post(data@, r->Ok_0),
{
    let ghost l = data@.len();
    proof {
        crate::merkle::lemma_chunk_ranges_partition(l);
    }
    let data_copy = data.clone();
    proof {
        assert(data_copy@ =~= data@);
    }
    let mut chunks = match crate::merkle::generate_leaves(data_copy) {
        Ok(c) => c,
        Err(e) => {
            return Err(e);
        },
    };
    let tree_nodes = crate::merkle::clone_nodes(&chunks);
    let root = match crate::merkle::generate_data_root(tree_nodes) {
        Ok(n) => n,
        Err(e) => {
            return Err(e);
        },
    };
    let ghost ltv = crate::merkle::leaves_tv_of(data@);
    let ghost rootv = crate::model::root_tv(ltv);
    proof {
        assert(crate::merkle::node_tv(root) == rootv);
        crate::merkle::lemma_node_tv_info(root);
        crate::model::lemma_proofs_tv_len(rootv, Seq::<u8>::empty());
        crate::model::lemma_root_tv_leaves(ltv);
        crate::model::lemma_leaves_of_leaf_seq(ltv);
    }
    let root_id = root.id.clone();
    proof {
        assert(root_id@ =~= root.id@);
    }
    let data_root = Base64(root_id);
    let mut proofs = match crate::merkle::resolve_proofs(root, None) {
        Ok(p) => p,
        Err(e) => {
            return Err(e);
        },
    };
    let last_idx = chunks.len() - 1;
    proof {
        let rs = crate::merkle::chunk_ranges(l);
        assert(crate::merkle::views_of(chunks@)[last_idx as int] == crate::merkle::node_tv(
            chunks@[last_idx as int],
        ));
        assert(ltv[last_idx as int] == crate::model::TreeV::Leaf(
            crate::model::mk_leaf_nv(data@, rs[last_idx as int].0, rs[last_idx as int].1),
        ));
        crate::merkle::lemma_node_tv_info(chunks@[last_idx as int]);
    }
    let drop_last = chunks[last_idx].max_byte_range == chunks[last_idx].min_byte_range;
    if drop_last {
        chunks.pop();
        proofs.pop();
    }
    let data_size = data.len() as u64;
    let tx = Transaction {
        format: 2,
        id: Base64(Vec::new()),
        last_tx: Base64(Vec::new()),
        owner: Base64(Vec::new()),
        tags: Vec::new(),
        target: Base64(Vec::new()),
        quantity: 0,
        data_root,
        data: Base64(data),
        data_size,
        reward: 0,
        signature: Base64(Vec::new()),
        chunks,
        proofs,
    };
    proof {
        assert(crate::merkle::views_of(tx.chunks@) =~= ltv.subrange(
            0,
            kept_count(l) as int,
        ));
        assert(crate::merkle::proof_views(tx.proofs@) =~= crate::model::proofs_tv(
            rootv,
            Seq::empty(),
        ).subrange(0, kept_count(l) as int));
    }
    Ok(tx)
}

} // verus!
