//! Background-image administration: the state held for the current
//! background, the pure kernels of its update and retrieval paths, and the
//! greyscale bit-packing of a decoded image.
//!
//! Image decoding and resizing, file storage, and the HTTP surface around
//! these are unverified work at the process edge; they hand plain values
//! (decoded pixels, file bytes, credentials) to the functions here and act
//! on the decisions handed back.

use vstd::multiset::Multiset;
use vstd::prelude::*;

verus! {

/// Seed of the content hash of background images.
pub const HASH_SEED: u32 = 3140;

pub fn default_background_width() -> (r: u32)
    ensures
        r == 960,
{
    960
}

pub fn default_background_height() -> (r: u32)
    ensures
        r == 540,
{
    540
}

/// The digest that the 32-bit xxHash of the bytes under the given seed
/// computes; a function of the bytes and seed alone.
pub uninterp spec fn xxh32_of(bytes: Seq<u8>, seed: u32) -> u32;

/// Relies on `xxhash_rust::xxh32::xxh32`: the digest depends on the input
/// bytes and the seed alone.
#[verifier::external_body]
fn xxh32(data: &[u8], seed: u32) -> (r: u32)
    ensures
        r == xxh32_of(data@, seed),
{
    xxhash_rust::xxh32::xxh32(data, seed)
}

/// The currently served background image.
#[derive(Debug)]
pub struct BackgroundState {
    data: Vec<u8>,
    hash: u32,
    name: String,
}

pub ghost struct BackgroundStateView {
    pub data: Seq<u8>,
    pub hash: u32,
    pub name: Seq<char>,
}

impl View for BackgroundState {
    type V = BackgroundStateView;

    closed spec fn view(&self) -> BackgroundStateView {
        BackgroundStateView { data: self.data@, hash: self.hash, name: self.name@ }
    }
}

impl BackgroundState {
    pub fn new(data: Vec<u8>, hash: u32, name: String) -> (r: Self)
        ensures
            r@ == (BackgroundStateView { data: data@, hash: hash, name: name@ }),
    {
        BackgroundState { data, hash, name }
    }

    pub fn data(&self) -> (r: &[u8])
        ensures
            r@ == self@.data,
    {
        self.data.as_slice()
    }

    pub fn hash(&self) -> (r: u32)
        ensures
            r == self@.hash,
    {
        self.hash
    }

    pub fn name(&self) -> (r: &str)
        ensures
            r@ == self@.name,
    {
        self.name.as_str()
    }
}

/// A background image as handed out to a client.
#[derive(Debug)]
pub struct Background {
    bytes: Vec<u8>,
    hash: u32,
}

pub ghost struct BackgroundView {
    pub bytes: Seq<u8>,
    pub hash: u32,
}

impl View for Background {
    type V = BackgroundView;

    closed spec fn view(&self) -> BackgroundView {
        BackgroundView { bytes: self.bytes@, hash: self.hash }
    }
}

impl Background {
    pub fn bytes(&self) -> (r: &[u8])
        ensures
            r@ == self@.bytes,
    {
        self.bytes.as_slice()
    }

    pub fn hash(&self) -> (r: u32)
        ensures
            r == self@.hash,
    {
        self.hash
    }
}

/// Error surface of the administration service.
#[derive(Debug)]
pub enum DoorstepError {
    NotFound(String),
    InternalError(String),
    InvalidRequest(String),
}

impl DoorstepError {
    /// The HTTP status this error is reported with.
    pub fn status_code(&self) -> (r: u16)
        ensures
            r == (match self {
                DoorstepError::NotFound(_) => 404u16,
                DoorstepError::InvalidRequest(_) => 400u16,
                DoorstepError::InternalError(_) => 500u16,
            }),
    {
        match self {
            DoorstepError::NotFound(_) => 404,
            DoorstepError::InvalidRequest(_) => 400,
            DoorstepError::InternalError(_) => 500,
        }
    }
}

/// Query of the background endpoint: the hash the client already has.
#[derive(Debug, Clone, Copy, PartialEq, Eq, Structural)]
pub struct BackgroundRequestQuery {
    pub known_hash: Option<u32>,
}

/// The admin credentials check: both the user and the password must match.
pub fn check_admin_auth(user: &str, password: &str, admin_user: &str, admin_password: &str) -> (r:
    bool)
    ensures
        r <==> (user@ == admin_user@ && password@ == admin_password@),
{
    let u = <String as vstd::string::StringExecFns>::from_str(user);
    let au = <String as vstd::string::StringExecFns>::from_str(admin_user);
    let p = <String as vstd::string::StringExecFns>::from_str(password);
    let ap = <String as vstd::string::StringExecFns>::from_str(admin_password);
    u == au && p == ap
}

/// Finish a background update from the packed image bytes: compute the
/// content hash and assemble the new state.
pub fn finish_background_update(packed: Vec<u8>, name: String) -> (r: (BackgroundState, u32))
    ensures
        r.0@ == (BackgroundStateView {
            data: packed@,
            hash: xxh32_of(packed@, HASH_SEED),
            name: name@,
        }),
        r.1 == xxh32_of(packed@, HASH_SEED),
{
    let hash = xxh32(packed.as_slice(), HASH_SEED);
    (BackgroundState::new(packed, hash, name), hash)
}

/// Take the current background for a client, or report that none is set.
pub fn get_background(bg: Option<&BackgroundState>) -> (r: Result<Background, DoorstepError>)
    ensures
        match r {
            Ok(b) => {
                &&& bg is Some
                &&& b@.bytes == bg->Some_0@.data
                &&& b@.hash == bg->Some_0@.hash
            },
            Err(e) => bg is None && e is NotFound,
        },
{
    match bg {
        Some(state) => {
            let mut bytes: Vec<u8> = Vec::new();
            bytes.extend_from_slice(state.data());
            let hash = state.hash();
            Ok(Background { bytes, hash })
        },
        None => Err(
            DoorstepError::NotFound(
                <String as vstd::string::StringExecFns>::from_str("No background set"),
            ),
        ),
    }
}

/// Reply of the background endpoint.
#[derive(Debug)]
pub enum BackgroundReply {
    /// The client's known hash matches the current background.
    NotModified(u32),
    /// The current background's bytes and hash.
    Full(Vec<u8>, u32),
}

/// Decide the background endpoint's reply: a client that already holds the
/// current hash is told so; anyone else gets the image.
pub fn background_reply(bg: Background, query: BackgroundRequestQuery) -> (r: BackgroundReply)
    ensures
        match r {
            BackgroundReply::NotModified(h) => {
                &&& query.known_hash == Some(bg@.hash)
                &&& h == bg@.hash
            },
            BackgroundReply::Full(bytes, h) => {
                &&& query.known_hash != Some(bg@.hash)
                &&& bytes@ == bg@.bytes
                &&& h == bg@.hash
            },
        },
{
    let hash = bg.hash;
    match query.known_hash {
        Some(known) => {
            if known == hash {
                BackgroundReply::NotModified(hash)
            } else {
                BackgroundReply::Full(bg.bytes, hash)
            }
        },
        None => BackgroundReply::Full(bg.bytes, hash),
    }
}

/// The bytes of one packed pixel row: two 4-bit greyscale pixels per byte,
/// the even pixel's high nibble in the low nibble and the odd pixel's high
/// nibble in the high nibble; an odd row ends with a half-filled byte.
pub open spec fn pack_pairs(row: Seq<u8>) -> Seq<u8>
    decreases row.len(),
{
    if row.len() >= 2 {
        seq![(row[0] >> 4) | (row[1] & 0xF0)] + pack_pairs(row.skip(2))
    } else if row.len() == 1 {
        seq![row[0] >> 4]
    } else {
        Seq::empty()
    }
}

/// The packed bitmap of a row-major greyscale image of row width `w`.
pub open spec fn pack_rows(pix: Seq<u8>, w: nat) -> Seq<u8>
    decreases pix.len(),
{
    if w == 0 || pix.len() == 0 {
        Seq::empty()
    } else if pix.len() < w {
        pack_pairs(pix)
    } else {
        pack_pairs(pix.take(w as int)) + pack_rows(pix.skip(w as int), w)
    }
}

/// Pack a decoded greyscale image, row-major with 8-bit pixels, into the
/// 4-bit-per-pixel bitmap the display device takes.
#[verifier::rlimit(100)]
pub fn pack_bitmap(pix: &[u8], width: usize, height: usize) -> (r: Vec<u8>)
    requires
        pix@.len() == width * height,
    ensures
        r@ == pack_rows(pix@, width as nat),
{
    let mut out: Vec<u8> = Vec::new();
    if width == 0 {
        proof {
            assert(out@ =~= pack_rows(pix@, 0));
        }
        return out;
    }
    let n = pix.len();
    let mut y: usize = 0;
    proof {
        assert(pix@.skip(0) =~= pix@);
    }
    while y < height
        invariant
            0 <= y <= height,
            width >= 1,
            n == pix@.len(),
            pix@.len() == width * height,
            y * width <= pix@.len(),
            pack_rows(pix@, width as nat) == out@ + pack_rows(
                pix@.skip((y * width) as int),
                width as nat,
            ),
        decreases height - y,
    {
        proof {
            vstd::arithmetic::mul::lemma_mul_inequality(y + 1, height as int, width as int);
            assert(height * width == width * height) by (nonlinear_arith);
            assert((y + 1) * width == y * width + width) by (nonlinear_arith);
            assert(y * width + width <= pix@.len());
        }
        let base = y * width;
        let ghost remaining = pix@.skip(base as int);
        let ghost row = remaining.take(width as int);
        proof {
            assert(remaining.len() == pix@.len() - base);
            assert(remaining.len() >= width);
            assert(pack_rows(remaining, width as nat) == pack_pairs(row) + pack_rows(
                remaining.skip(width as int),
                width as nat,
            ));
            assert(remaining.skip(width as int) =~= pix@.skip((base + width) as int));
            assert(row.skip(0) =~= row);
            assert(out@ + (pack_pairs(row) + pack_rows(
                pix@.skip((base + width) as int),
                width as nat,
            )) =~= out@ + pack_pairs(row) + pack_rows(
                pix@.skip((base + width) as int),
                width as nat,
            ));
        }
        let mut x: usize = 0;
        while x < width - 1
            invariant
                0 <= x <= width,
                width >= 1,
                n == pix@.len(),
                pix@.len() == width * height,
                base == y * width,
                base + width <= pix@.len(),
                row == pix@.skip(base as int).take(width as int),
                pack_rows(pix@, width as nat) == out@ + pack_pairs(row.skip(x as int))
                    + pack_rows(pix@.skip((base + width) as int), width as nat),
            decreases width - x,
        {
            let a = *vstd::slice::slice_index_get(pix, base + x);
            let b = *vstd::slice::slice_index_get(pix, base + x + 1);
            let ghost out_pre = out@;
            out.push((a >> 4) | (b & 0xF0));
            proof {
                let tail = row.skip(x as int);
                assert(tail.len() >= 2);
                assert(tail[0] == pix@[base + x as int]);
                assert(tail[1] == pix@[base + x + 1 as int]);
                assert(tail.skip(2) =~= row.skip(x + 2));
                assert(out@ =~= out_pre + seq![(tail[0] >> 4) | (tail[1] & 0xF0)]);
                assert(out_pre + (seq![(tail[0] >> 4) | (tail[1] & 0xF0)] + pack_pairs(
                    tail.skip(2),
                )) =~= out@ + pack_pairs(row.skip(x + 2)));
            }
            x += 2;
        }
        if x < width {
            let a = *vstd::slice::slice_index_get(pix, base + x);
            let ghost out_pre = out@;
            out.push(a >> 4);
            proof {
                let tail = row.skip(x as int);
                assert(tail.len() == 1);
                assert(tail[0] == pix@[base + x as int]);
                assert(out@ =~= out_pre + pack_pairs(tail));
                assert(out_pre + pack_pairs(tail) + pack_rows(
                    pix@.skip((base + width) as int),
                    width as nat,
                ) =~= out@ + pack_rows(pix@.skip((base + width) as int), width as nat));
            }
        } else {
            proof {
                assert(row.skip(x as int).len() == 0);
                assert(pack_pairs(row.skip(x as int)) =~= Seq::<u8>::empty());
                assert(out@ + Seq::<u8>::empty() =~= out@);
            }
        }
        y += 1;
        proof {
            assert(y * width == base + width) by (nonlinear_arith)
                requires
                    base == (y - 1) * width,
            ;
        }
    }
    proof {
        assert(y * width == pix@.len()) by (nonlinear_arith)
            requires
                y == height,
                pix@.len() == width * height,
        ;
        assert(pix@.skip((y * width) as int).len() == 0);
        assert(pack_rows(pix@.skip((y * width) as int), width as nat) =~= Seq::<u8>::empty());
        assert(out@ + Seq::<u8>::empty() =~= out@);
    }
    out
}

/// The listing order of backgrounds: newest first by modification time.
pub open spec fn sorted_newest_first(s: Seq<(u64, Seq<char>)>) -> bool {
    forall|i: int, j: int| 0 <= i < j < s.len() ==> s[i].0 >= s[j].0
}

pub open spec fn listing_view(s: Seq<(u64, String)>) -> Seq<(u64, Seq<char>)> {
    s.map_values(|p: (u64, String)| (p.0, p.1@))
}

proof fn lemma_insert_to_multiset(s: Seq<(u64, String)>, at: int, v: (u64, String))
    requires
        0 <= at <= s.len(),
    ensures
        s.insert(at, v).to_multiset() == s.to_multiset().insert(v),
{
    let a = s.take(at);
    let b = s.skip(at);
    assert(s.insert(at, v) =~= a.push(v) + b);
    assert(s =~= a + b);
    vstd::seq_lib::lemma_multiset_commutative(a.push(v), b);
    vstd::seq_lib::lemma_multiset_commutative(a, b);
    a.to_multiset_ensures();
    assert(a.to_multiset().insert(v).add(b.to_multiset()) =~= a.to_multiset().add(
        b.to_multiset(),
    ).insert(v));
}

proof fn lemma_empty_to_multiset(s: Seq<(u64, String)>)
    requires
        s.len() == 0,
    ensures
        s.to_multiset() == Multiset::<(u64, String)>::empty(),
{
    s.to_multiset_ensures();
    assert(s.to_multiset() =~= Multiset::<(u64, String)>::empty()) by {
        assert forall|x: (u64, String)| s.to_multiset().count(x) == 0 by {
            if s.to_multiset().count(x) > 0 {
                assert(s.contains(x));
            }
        }
    }
}

proof fn lemma_drop_last_to_multiset(s: Seq<(u64, String)>)
    requires
        s.len() > 0,
    ensures
        s.drop_last().to_multiset() == s.to_multiset().remove(s.last()),
        s.to_multiset().count(s.last()) >= 1,
{
    s.to_multiset_ensures();
    assert(s.remove(s.len() - 1) =~= s.drop_last());
    assert(s.contains(s.last()));
}

/// Order a background listing newest-first by modification time: each
/// entry is a modification timestamp and a file name. The result holds
/// exactly the given entries.
pub fn sort_newest_first(files: Vec<(u64, String)>) -> (r: Vec<(u64, String)>)
    ensures
        sorted_newest_first(listing_view(r@)),
        r@.to_multiset() == files@.to_multiset(),
{
    let ghost files0 = files@;
    let mut rest = files;
    let mut out: Vec<(u64, String)> = Vec::new();
    proof {
        lemma_empty_to_multiset(out@);
        assert(out@.to_multiset().add(rest@.to_multiset()) =~= files0.to_multiset());
    }
    while rest.len() > 0
        invariant
            sorted_newest_first(listing_view(out@)),
            out@.to_multiset().add(rest@.to_multiset()) == files0.to_multiset(),
        decreases rest.len(),
    {
        let ghost rest_pre = rest@;
        let item = match rest.pop() {
            Some(item) => item,
            None => {
                return out;
            },
        };
        proof {
            assert(rest@ =~= rest_pre.drop_last());
            lemma_drop_last_to_multiset(rest_pre);
        }
        let key = item.0;
        let mut k: usize = 0;
        loop
            invariant_except_break
                k <= out.len(),
                forall|j: int| 0 <= j < k ==> out@[j].0 >= key,
            ensures
                k <= out.len(),
                forall|j: int| 0 <= j < k ==> out@[j].0 >= key,
                k == out.len() || out@[k as int].0 < key,
            decreases out.len() - k,
        {
            if k >= out.len() {
                break ;
            }
            if out[k].0 < key {
                break ;
            }
            k += 1;
        }
        let ghost out_pre = out@;
        proof {
            lemma_insert_to_multiset(out_pre, k as int, item);
        }
        out.insert(k, item);
        proof {
            let s = listing_view(out@);
            let s_pre = listing_view(out_pre);
            assert(s =~= listing_view(out_pre.insert(k as int, item)));
            assert(forall|j: int| 0 <= j < k ==> s[j] == s_pre[j]);
            assert(forall|j: int| k < j < s.len() ==> s[j] == s_pre[j - 1]);
            assert(s[k as int].0 == key);
            assert(sorted_newest_first(s)) by {
                assert(forall|i: int, j: int| 0 <= i < j < s.len() && j < k ==> s[i].0 >= s[j].0);
                assert(forall|i: int, j: int|
                    0 <= i < j < s.len() && i > k ==> s[i].0 >= s[j].0);
                assert(forall|i: int| 0 <= i < k ==> s[i].0 >= key);
                assert(forall|j: int| k < j < s.len() ==> key > (#[trigger] s[j]).0) by {
                    assert(forall|j: int|
                        k < j < s.len() ==> (#[trigger] s_pre[j - 1]).0 <= s_pre[k as int].0);
                }
            }
            assert(out@.to_multiset().add(rest@.to_multiset()) =~= files0.to_multiset());
        }
    }
    proof {
        lemma_empty_to_multiset(rest@);
        assert(out@.to_multiset().add(rest@.to_multiset()) =~= out@.to_multiset());
    }
    out
}

/// The index of the newest entry by modification time: the last index
/// attaining the maximum, as a fold over the list would pick it.
pub fn latest_index(modified: &Vec<u64>) -> (r: Option<usize>)
    ensures
        match r {
            Some(i) => {
                &&& i < modified@.len()
                &&& forall|j: int| 0 <= j < modified@.len() ==> modified@[j] <= modified@[i as int]
                &&& forall|j: int| i < j < modified@.len() ==> modified@[j] < modified@[i as int]
            },
            None => modified@.len() == 0,
        },
{
    let n = modified.len();
    if n == 0 {
        return None;
    }
    let mut best: usize = 0;
    let mut k: usize = 1;
    while k < n
        invariant
            n == modified@.len(),
            0 <= best < k <= n,
            forall|j: int| 0 <= j < k ==> modified@[j] <= modified@[best as int],
            forall|j: int| best < j < k ==> modified@[j] < modified@[best as int],
        decreases n - k,
    {
        if modified[k] >= modified[best] {
            best = k;
        }
        k += 1;
    }
    Some(best)
}

} // verus!
