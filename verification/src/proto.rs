//! The wire format: a board post, written into a compact buffer and sealed
//! into a block whose length does not depend on the post.

use vstd::prelude::*;
use vstd::slice::slice_subrange;
use vstd::utf8::{decode_utf8, encode_utf8, valid_utf8};

use crate::big_endian::{
    be_bytes, be_value, byte_weight, law_be_bytes_places, law_be_value_2, lemma_be_bytes_len, lemma_be_bytes_of_value, lemma_be_range_2,
    lemma_be_range_8, lemma_be_value_bound, lemma_be_value_of_bytes, push_be, read_be,
};
use crate::cipher::{
    aead_decrypt, aead_encrypt, chacha_decrypt, chacha_encrypt, draw_nonce, drawn, Cipher, KEY_SIZE,
    MAX_PLAINTEXT, NONCE_SIZE, TAG_SIZE,
};
use crate::text::utf8_text;

verus! {

/// Length of the message id in front of every frame.
pub const ID_SIZE: usize = 32;

/// Length of a frame on the wire.
pub const MESSAGE_SIZE: usize = 512;

/// The part of a frame behind the message id.
pub const PAYLOAD: usize = MESSAGE_SIZE - ID_SIZE;

/// Length of the plaintext block sealed into every frame.
pub const INNER: usize = PAYLOAD - NONCE_SIZE - TAG_SIZE;

/// Length of the header that counts the bytes of the post.
pub const LEN_HDR: usize = 2;

/// The longest written post that one frame holds.
pub const MAX_POST: usize = INNER - LEN_HDR;

/// A single board post.
#[derive(Clone, Debug)]
pub struct Post {
    /// The board the post belongs to.
    pub board: String,
    /// The author's nickname.
    pub nick: String,
    /// The sender's wall clock, in seconds since the epoch.
    pub ts: u64,
    /// The message body.
    pub text: String,
}

/// A post as a mathematical value.
#[verifier::ext_equal]
pub struct PostView {
    pub board: Seq<char>,
    pub nick: Seq<char>,
    pub ts: u64,
    pub text: Seq<char>,
}

impl View for Post {
    type V = PostView;

    open spec fn view(&self) -> PostView {
        PostView { board: self.board@, nick: self.nick@, ts: self.ts, text: self.text@ }
    }
}

/// The post in `post`, if any, as a mathematical value.
pub open spec fn post_view(post: Option<Post>) -> Option<PostView> {
    match post {
        Some(p) => Some(p@),
        None => None,
    }
}

/// Whether each field is short enough for the counter in front of it.
pub open spec fn countable(p: PostView) -> bool {
    &&& encode_utf8(p.board).len() <= u8::MAX
    &&& encode_utf8(p.nick).len() <= u8::MAX
    &&& encode_utf8(p.text).len() <= u16::MAX
}

/// A post as it is written: board and nickname behind one byte of length
/// each, eight bytes of time, and the body behind two bytes of length.
pub open spec fn written(p: PostView) -> Seq<u8> {
    let board = encode_utf8(p.board);
    let nick = encode_utf8(p.nick);
    let text = encode_utf8(p.text);
    seq![board.len() as u8] + board + seq![nick.len() as u8] + nick + be_bytes(p.ts as nat, 8)
        + be_bytes(text.len(), 2) + text
}

/// Whether a post goes into one frame.
pub open spec fn fits(p: PostView) -> bool {
    countable(p) && written(p).len() <= MAX_POST
}

/// The post that stands at the front of `buf`, if one does; what follows it
/// is not looked at.
pub open spec fn parsed(buf: Seq<u8>) -> Option<PostView> {
    let nick_at = 1 + buf[0] as int;
    let ts_at = nick_at + 1 + buf[nick_at] as int;
    let text_at = ts_at + 10;
    let end = text_at + be_value(buf.subrange(ts_at + 8, text_at));
    let board = buf.subrange(1, nick_at);
    let nick = buf.subrange(nick_at + 1, ts_at);
    let text = buf.subrange(text_at, end);
    if 1 <= buf.len() && nick_at < buf.len() && text_at <= buf.len() && end <= buf.len()
        && valid_utf8(board) && valid_utf8(nick) && valid_utf8(text) {
        Some(
            PostView {
                board: decode_utf8(board),
                nick: decode_utf8(nick),
                ts: be_value(buf.subrange(ts_at, ts_at + 8)) as u64,
                text: decode_utf8(text),
            },
        )
    } else {
        None
    }
}

fn extend(out: &mut Vec<u8>, bytes: &[u8])
    ensures
        final(out)@ == old(out)@ + bytes@,
{
    let ghost before = out@;
    out.extend_from_slice(bytes);
    assert(out@ =~= before + bytes@);
}

impl Post {
    /// Writes the post into a compact buffer, or gives `None` if a field is
    /// too long for its counter or the whole is too long for one frame.
    pub fn encode(&self) -> (r: Option<Vec<u8>>)
        ensures
            r is Some <==> fits(self@),
            r is Some <==> encode_utf8(self.board@).len() <= 255 && encode_utf8(self.nick@).len()
                <= 255 && 12 + encode_utf8(self.board@).len() + encode_utf8(self.nick@).len()
                + encode_utf8(self.text@).len() <= MAX_POST,
            r matches Some(out) ==> out@ == written(self@),
            self@ == (PostView {
                board: self.board@,
                nick: self.nick@,
                ts: self.ts,
                text: self.text@,
            }),
    {
        proof {
            law_fits_by_length(self@);
        }
        let board = self.board.as_str().as_bytes();
        let nick = self.nick.as_str().as_bytes();
        let text = self.text.as_str().as_bytes();
        if board.len() > 255 || nick.len() > 255 || text.len() > 65_535 {
            return None;
        }
        let mut out: Vec<u8> = Vec::new();
        out.push(board.len() as u8);
        extend(&mut out, board);
        out.push(nick.len() as u8);
        extend(&mut out, nick);
        push_be(&mut out, self.ts, 8);
        push_be(&mut out, text.len() as u64, 2);
        extend(&mut out, text);
        assert(out@ =~= written(self@));
        if out.len() <= MAX_POST {
            Some(out)
        } else {
            None
        }
    }

    /// Reads the post at the front of `buf`.
    pub fn decode(buf: &[u8]) -> (r: Option<Post>)
        ensures
            post_view(r) == parsed(buf@),
            r matches Some(p) ==> parsed(buf@) == Some(
                PostView { board: p.board@, nick: p.nick@, ts: p.ts, text: p.text@ },
            ),
    {
        if buf.len() < 1 {
            return None;
        }
        let nick_at: usize = 1 + buf[0] as usize;
        if nick_at >= buf.len() {
            return None;
        }
        let ts_at: usize = nick_at + 1 + buf[nick_at] as usize;
        let text_at: usize = ts_at + 10;
        if text_at > buf.len() {
            return None;
        }
        proof {
            lemma_be_value_bound(buf@.subrange(ts_at + 8, text_at as int));
            lemma_be_range_2();
            lemma_be_value_bound(buf@.subrange(ts_at as int, ts_at + 8));
            lemma_be_range_8();
        }
        let end: usize = text_at + read_be(slice_subrange(buf, ts_at + 8, text_at)) as usize;
        if end > buf.len() {
            return None;
        }
        let board = match utf8_text(slice_subrange(buf, 1, nick_at)) {
            Some(board) => board,
            None => return None,
        };
        let nick = match utf8_text(slice_subrange(buf, nick_at + 1, ts_at)) {
            Some(nick) => nick,
            None => return None,
        };
        let ts: u64 = read_be(slice_subrange(buf, ts_at, ts_at + 8));
        let text = match utf8_text(slice_subrange(buf, text_at, end)) {
            Some(text) => text,
            None => return None,
        };
        Some(Post { board, nick, ts, text })
    }
}

/// The plaintext block of a frame: the length of the written post in two
/// bytes, the written post, and zeros up to the full width.
pub open spec fn inner_block(body: Seq<u8>) -> Seq<u8> {
    be_bytes(body.len(), LEN_HDR as nat) + body + Seq::new(
        (INNER - LEN_HDR - body.len()) as nat,
        |i: int| 0u8,
    )
}

/// The payload that carries a post under a key and a nonce.
pub open spec fn sealed(key: Seq<u8>, nonce: Seq<u8>, p: PostView) -> Seq<u8> {
    nonce + chacha_encrypt(key, nonce, inner_block(written(p)))
}

/// The post in a plaintext block, if it holds one.
pub open spec fn unblocked(inner: Seq<u8>) -> Option<PostView> {
    let end = LEN_HDR + be_value(inner.subrange(0, LEN_HDR as int));
    if LEN_HDR <= inner.len() && end <= inner.len() {
        parsed(inner.subrange(LEN_HDR as int, end as int))
    } else {
        None
    }
}

/// Where the nonce of a frame stands.
pub open spec fn frame_nonce(frame: Seq<u8>) -> Seq<u8> {
    frame.subrange(ID_SIZE as int, ID_SIZE + NONCE_SIZE)
}

/// Where the ciphertext of a frame stands.
pub open spec fn frame_ciphertext(frame: Seq<u8>) -> Seq<u8> {
    frame.subrange(ID_SIZE + NONCE_SIZE, frame.len() as int)
}

/// The post that a frame carries under a key. A frame that is too short for
/// a nonce, or too long for the cipher's block counter, carries none.
pub open spec fn opened(key: Seq<u8>, frame: Seq<u8>) -> Option<PostView> {
    if frame.len() < ID_SIZE + NONCE_SIZE || frame_ciphertext(frame).len() > MAX_PLAINTEXT
        + TAG_SIZE {
        None
    } else {
        match chacha_decrypt(key, frame_nonce(frame), frame_ciphertext(frame)) {
            Some(inner) => unblocked(inner),
            None => None,
        }
    }
}

/// A post with any bytes behind it reads back as that post.
pub proof fn law_parsed_written(p: PostView, rest: Seq<u8>)
    requires
        countable(p),
    ensures
        parsed(written(p) + rest) == Some(p),
{
    let board = encode_utf8(p.board);
    let nick = encode_utf8(p.nick);
    let text = encode_utf8(p.text);
    let ts = be_bytes(p.ts as nat, 8);
    let len = be_bytes(text.len(), 2);
    let buf = written(p) + rest;
    lemma_be_bytes_len(p.ts as nat, 8);
    lemma_be_bytes_len(text.len(), 2);
    lemma_be_range_2();
    lemma_be_range_8();
    lemma_be_value_of_bytes(p.ts as nat, 8);
    lemma_be_value_of_bytes(text.len(), 2);
    let nick_at = 1 + board.len() as int;
    let ts_at = nick_at + 1 + nick.len();
    let text_at = ts_at + 10;
    assert(buf[0] == board.len());
    assert(buf[nick_at] == nick.len());
    assert(buf.subrange(1, nick_at) =~= board);
    assert(buf.subrange(nick_at + 1, ts_at) =~= nick);
    assert(buf.subrange(ts_at, ts_at + 8) =~= ts);
    assert(buf.subrange(ts_at + 8, text_at) =~= len);
    assert(buf.subrange(text_at, text_at + text.len()) =~= text);
    lemma_utf8(p.board);
    lemma_utf8(p.nick);
    lemma_utf8(p.text);
}

proof fn lemma_utf8(chars: Seq<char>)
    ensures
        valid_utf8(encode_utf8(chars)),
        decode_utf8(encode_utf8(chars)) == chars,
{
    vstd::utf8::encode_utf8_valid_utf8(chars);
    vstd::utf8::encode_utf8_decode_utf8(chars);
}

/// A buffer reads as a post only where that post, as it is written, stands
/// at its front.
pub proof fn law_written_parsed(buf: Seq<u8>)
    ensures
        parsed(buf) matches Some(p) ==> countable(p) && written(p).is_prefix_of(buf),
{
    if parsed(buf) is Some {
        let p = parsed(buf)->0;
        let nick_at = 1 + buf[0] as int;
        let ts_at = nick_at + 1 + buf[nick_at] as int;
        let text_at = ts_at + 10;
        let len = buf.subrange(ts_at + 8, text_at);
        let ts = buf.subrange(ts_at, ts_at + 8);
        let end = text_at + be_value(len);
        vstd::utf8::decode_utf8_encode_utf8(buf.subrange(1, nick_at));
        vstd::utf8::decode_utf8_encode_utf8(buf.subrange(nick_at + 1, ts_at));
        vstd::utf8::decode_utf8_encode_utf8(buf.subrange(text_at, end));
        lemma_be_value_bound(len);
        lemma_be_value_bound(ts);
        lemma_be_range_2();
        lemma_be_range_8();
        lemma_be_bytes_of_value(len);
        lemma_be_bytes_of_value(ts);
        assert(written(p) =~= buf.subrange(0, end));
    }
}

/// Two posts that are written alike are the same post.
pub proof fn law_written_injective(p: PostView, q: PostView)
    requires
        countable(p),
        countable(q),
        written(p) == written(q),
    ensures
        p == q,
{
    law_parsed_written(p, Seq::empty());
    law_parsed_written(q, Seq::empty());
}

/// How long a written post is, and so which posts fit: twelve bytes and the
/// three texts.
pub proof fn law_written_len(p: PostView)
    ensures
        written(p).len() == 12 + encode_utf8(p.board).len() + encode_utf8(p.nick).len()
            + encode_utf8(p.text).len(),
{
    lemma_be_bytes_len(p.ts as nat, 8);
    lemma_be_bytes_len(encode_utf8(p.text).len(), 2);
}

/// The plaintext block has the same length for every post that fits, and
/// gives the post back.
pub proof fn law_unblocked_inner_block(p: PostView)
    requires
        fits(p),
    ensures
        inner_block(written(p)).len() == INNER,
        unblocked(inner_block(written(p))) == Some(p),
{
    let body = written(p);
    let inner = inner_block(body);
    lemma_be_bytes_len(body.len(), 2);
    lemma_be_range_2();
    lemma_be_value_of_bytes(body.len(), 2);
    assert(inner.subrange(0, 2) =~= be_bytes(body.len(), 2));
    assert(inner.subrange(2, 2 + body.len() as int) =~= body);
    assert(body + Seq::<u8>::empty() =~= body);
    law_parsed_written(p, Seq::empty());
}

/// Reads `peasub::ID_SIZE`. Trusted: the gossip layer's message ids have the
/// length that the frame format here is laid out for.
#[verifier::external_body]
fn peasub_id_size() -> (size: usize)
    ensures
        size == ID_SIZE,
{
    peasub::ID_SIZE
}

/// Lays a written post out in a plaintext block.
fn build_inner(body: &[u8]) -> (inner: Vec<u8>)
    requires
        body@.len() <= MAX_POST,
    ensures
        inner@ == inner_block(body@),
        inner@.len() == INNER,
{
    let mut inner: Vec<u8> = Vec::new();
    push_be(&mut inner, body.len() as u64, LEN_HDR);
    extend(&mut inner, body);
    proof {
        lemma_be_bytes_len(body@.len(), LEN_HDR as nat);
    }
    while inner.len() < INNER
        invariant
            body@.len() <= MAX_POST,
            be_bytes(body@.len(), LEN_HDR as nat).len() == LEN_HDR,
            LEN_HDR + body@.len() <= inner@.len() <= INNER,
            inner@ == be_bytes(body@.len(), LEN_HDR as nat) + body@ + Seq::new(
                (inner@.len() - LEN_HDR - body@.len()) as nat,
                |i: int| 0u8,
            ),
        decreases INNER - inner@.len(),
    {
        inner.push(0);
        assert(inner@ =~= be_bytes(body@.len(), LEN_HDR as nat) + body@ + Seq::new(
            (inner@.len() - LEN_HDR - body@.len()) as nat,
            |i: int| 0u8,
        ));
    }
    inner
}

/// Seals a written post under a nonce; behind any id the payload opens to the
/// post that was written.
fn seal_body(cipher: &Cipher, nonce: &[u8; NONCE_SIZE], body: &[u8]) -> (r: Option<Vec<u8>>)
    requires
        body@.len() <= MAX_POST,
    ensures
        r is Some,
        r->0@ == nonce@ + chacha_encrypt(cipher@, nonce@, inner_block(body@)),
        r->0@.len() == PAYLOAD,
        r->0@.subrange(0, NONCE_SIZE as int) == nonce@,
        forall|p: PostView, id: Seq<u8>|
            #![trigger written(p), id + r->0@]
            fits(p) && written(p) == body@ && id.len() == ID_SIZE ==> opened(cipher@, id + r->0@)
                == Some(p),
{
    let inner = build_inner(body);
    match aead_encrypt(cipher, nonce.as_slice(), inner.as_slice()) {
        Ok(ciphertext) => {
            let mut out: Vec<u8> = Vec::new();
            extend(&mut out, nonce.as_slice());
            extend(&mut out, ciphertext.as_slice());
            proof {
                assert(out@.subrange(0, NONCE_SIZE as int) =~= nonce@);
                assert(out@.subrange(NONCE_SIZE as int, PAYLOAD as int) =~= ciphertext@);
                assert forall|p: PostView, id: Seq<u8>|
                    #![trigger written(p), id + out@]
                    fits(p) && written(p) == body@ && id.len() == ID_SIZE implies opened(
                    cipher@,
                    id + out@,
                ) == Some(p) by {
                    lemma_payload_opens(cipher@, out@, p);
                }
            }
            Some(out)
        },
        Err(_) => None,
    }
}

/// A payload that decrypts to the block of a post opens to that post behind
/// any id.
proof fn lemma_payload_opens(key: Seq<u8>, payload: Seq<u8>, p: PostView)
    requires
        fits(p),
        payload.len() == PAYLOAD,
        chacha_decrypt(
            key,
            payload.subrange(0, NONCE_SIZE as int),
            payload.subrange(NONCE_SIZE as int, PAYLOAD as int),
        ) == Some(inner_block(written(p))),
    ensures
        forall|id: Seq<u8>|
            id.len() == ID_SIZE ==> opened(key, #[trigger] (id + payload)) == Some(p),
{
    law_unblocked_inner_block(p);
    assert forall|id: Seq<u8>| id.len() == ID_SIZE implies opened(key, #[trigger] (id + payload))
        == Some(p) by {
        let frame = id + payload;
        assert(frame_nonce(frame) =~= payload.subrange(0, NONCE_SIZE as int));
        assert(frame_ciphertext(frame) =~= payload.subrange(NONCE_SIZE as int, PAYLOAD as int));
    }
}

/// Seals a post under a given nonce.
pub fn seal_with_nonce(cipher: &Cipher, nonce: &[u8; NONCE_SIZE], post: &Post) -> (r: Option<
    Vec<u8>,
>)
    ensures
        r is Some <==> fits(post@),
        r is Some <==> encode_utf8(post.board@).len() <= 255 && encode_utf8(post.nick@).len() <= 255
            && 12 + encode_utf8(post.board@).len() + encode_utf8(post.nick@).len() + encode_utf8(
            post.text@,
        ).len() <= MAX_POST,
        r matches Some(out) ==> {
            &&& out@ == sealed(cipher@, nonce@, post@)
            &&& out@.len() == PAYLOAD
            &&& forall|id: Seq<u8>|
                id.len() == ID_SIZE ==> opened(cipher@, #[trigger] (id + out@)) == Some(post@)
        },
{
    match post.encode() {
        Some(body) => seal_body(cipher, nonce, body.as_slice()),
        None => None,
    }
}

/// Seals a post into a full-width payload under a nonce that it draws, or
/// gives `None` if the post is too long.
///
/// The nonce stands at the front of the payload and is one that was drawn from
/// the operating system's random numbers. Whichever was drawn, the payload is
/// as long as any other and opens to the post again behind any id.
pub fn seal(cipher: &Cipher, post: &Post) -> (r: Option<Vec<u8>>)
    ensures
        r is Some <==> fits(post@),
        r is Some <==> encode_utf8(post.board@).len() <= 255 && encode_utf8(post.nick@).len() <= 255
            && 12 + encode_utf8(post.board@).len() + encode_utf8(post.nick@).len() + encode_utf8(
            post.text@,
        ).len() <= MAX_POST,
        r matches Some(out) ==> {
            &&& drawn(out@.subrange(0, NONCE_SIZE as int))
            &&& out@ == sealed(cipher@, out@.subrange(0, NONCE_SIZE as int), post@)
            &&& out@.len() == PAYLOAD
            &&& forall|id: Seq<u8>|
                id.len() == ID_SIZE ==> opened(cipher@, #[trigger] (id + out@)) == Some(post@)
        },
{
    match post.encode() {
        Some(body) => {
            let nonce = draw_nonce();
            seal_body(cipher, &nonce, body.as_slice())
        },
        None => None,
    }
}

/// Reads the post in a decrypted block.
pub fn open_inner(inner: &[u8]) -> (r: Option<Post>)
    ensures
        post_view(r) == unblocked(inner@),
{
    if inner.len() < LEN_HDR {
        return None;
    }
    proof {
        lemma_be_value_bound(inner@.subrange(0, LEN_HDR as int));
        lemma_be_range_2();
    }
    let end: usize = LEN_HDR + read_be(slice_subrange(inner, 0, LEN_HDR)) as usize;
    if end > inner.len() {
        return None;
    }
    Post::decode(slice_subrange(inner, LEN_HDR, end))
}

/// Opens a received frame: the post, if the frame decrypts under the
/// cipher's key and holds one.
///
/// A frame opens only where its ciphertext is what the cipher itself makes
/// of the block that was read.
pub fn open(cipher: &Cipher, frame: &[u8]) -> (r: Option<Post>)
    ensures
        post_view(r) == opened(cipher@, frame@),
        r is Some ==> exists|inner: Seq<u8>|
            {
                &&& frame_ciphertext(frame@) == #[trigger] chacha_encrypt(
                    cipher@,
                    frame_nonce(frame@),
                    inner,
                )
                &&& post_view(r) == unblocked(inner)
            },
        r is Some ==> frame@.len() >= ID_SIZE + NONCE_SIZE + TAG_SIZE + LEN_HDR,
{
    let nonce_at: usize = peasub_id_size();
    let ciphertext_at: usize = nonce_at + NONCE_SIZE;
    if frame.len() < ciphertext_at {
        return None;
    }
    let nonce = slice_subrange(frame, nonce_at, ciphertext_at);
    let ciphertext = slice_subrange(frame, ciphertext_at, frame.len());
    if ciphertext.len() as u64 > MAX_PLAINTEXT + TAG_SIZE as u64 {
        return None;
    }
    match aead_decrypt(cipher, nonce, ciphertext) {
        Ok(inner) => open_inner(inner.as_slice()),
        Err(_) => None,
    }
}

/// The key that every node shares, which is what makes them one board. It is
/// no secret: whoever has this source has the key.
pub fn board_key() -> (cipher: Cipher)
    ensures
        cipher@ == Seq::new(KEY_SIZE as nat, |i: int| 0x42u8),
{
    let cipher = Cipher::new([0x42u8; KEY_SIZE]);
    assert(cipher@ =~= Seq::new(KEY_SIZE as nat, |i: int| 0x42u8));
    cipher
}

/// A post is turned down for its length alone: it fits where board and
/// nickname take no more than a byte can count, and the three texts with
/// twelve bytes of framing no more than a frame holds.
pub proof fn law_fits_by_length(p: PostView)
    ensures
        fits(p) <==> encode_utf8(p.board).len() <= 255 && encode_utf8(p.nick).len() <= 255 && 12
            + encode_utf8(p.board).len() + encode_utf8(p.nick).len() + encode_utf8(p.text).len()
            <= MAX_POST,
{
    law_written_len(p);
}

/// Shortening a text never makes a post too long, and which characters it is
/// made of does not matter.
pub proof fn law_shorter_fits(p: PostView, q: PostView)
    requires
        fits(p),
        encode_utf8(q.board).len() <= encode_utf8(p.board).len(),
        encode_utf8(q.nick).len() <= encode_utf8(p.nick).len(),
        encode_utf8(q.text).len() <= encode_utf8(p.text).len(),
    ensures
        fits(q),
{
    law_fits_by_length(p);
    law_fits_by_length(q);
}

/// Where each field of a written post stands, and how it is counted.
pub proof fn law_written_layout(p: PostView)
    requires
        encode_utf8(p.board).len() <= 255,
        encode_utf8(p.nick).len() <= 255,
        encode_utf8(p.text).len() <= 65_535,
    ensures
        ({
            let w = written(p);
            let board = encode_utf8(p.board);
            let nick = encode_utf8(p.nick);
            let text = encode_utf8(p.text);
            let nick_at = 1 + board.len() as int;
            let ts_at = nick_at + 1 + nick.len() as int;
            &&& w.len() == 12 + board.len() + nick.len() + text.len()
            &&& w[0] == board.len()
            &&& w.subrange(1, nick_at) == board
            &&& w[nick_at] == nick.len()
            &&& w.subrange(nick_at + 1, ts_at) == nick
            &&& forall|k: int|
                0 <= k < 8 ==> #[trigger] w[ts_at + k] == (p.ts as nat / byte_weight(
                    (7 - k) as nat,
                )) % 256
            &&& 256 * w[ts_at + 8] + w[ts_at + 9] == text.len()
            &&& w.skip(ts_at + 10) == text
        }),
{
    let w = written(p);
    let board = encode_utf8(p.board);
    let nick = encode_utf8(p.nick);
    let text = encode_utf8(p.text);
    let nick_at = 1 + board.len() as int;
    let ts_at = nick_at + 1 + nick.len() as int;
    let ts = be_bytes(p.ts as nat, 8);
    let len = be_bytes(text.len(), 2);
    lemma_be_bytes_len(p.ts as nat, 8);
    lemma_be_bytes_len(text.len(), 2);
    lemma_be_range_2();
    lemma_be_value_of_bytes(text.len(), 2);
    law_be_value_2(len);
    assert(w.subrange(1, nick_at) =~= board);
    assert(w.subrange(nick_at + 1, ts_at) =~= nick);
    assert(w.skip(ts_at + 10) =~= text);
    assert(w[ts_at + 8] == len[0] && w[ts_at + 9] == len[1]);
    assert forall|k: int| 0 <= k < 8 implies #[trigger] w[ts_at + k] == (p.ts as nat / byte_weight(
        (7 - k) as nat,
    )) % 256 by {
        assert(w[ts_at + k] == ts[k]);
        law_be_bytes_places(p.ts as nat, 8, k);
    }
}

/// A buffer reads as a post exactly where that post, as it is written, stands
/// at its front.
pub proof fn law_parsed_is_the_front(buf: Seq<u8>, p: PostView)
    ensures
        parsed(buf) == Some(p) <==> encode_utf8(p.board).len() <= 255 && encode_utf8(p.nick).len()
            <= 255 && encode_utf8(p.text).len() <= 65_535 && written(p).is_prefix_of(buf),
{
    law_written_parsed(buf);
    if countable(p) && written(p).is_prefix_of(buf) {
        let rest = buf.skip(written(p).len() as int);
        assert(buf =~= written(p) + rest);
        law_parsed_written(p, rest);
    }
}

/// The plaintext block counts the written post in two bytes, holds all of it,
/// and is filled up with zeros.
pub proof fn law_block_layout(body: Seq<u8>)
    requires
        body.len() <= MAX_POST,
    ensures
        inner_block(body).len() == INNER,
        256 * inner_block(body)[0] + inner_block(body)[1] == body.len(),
        inner_block(body).subrange(2, 2 + body.len() as int) == body,
        forall|i: int| 2 + body.len() <= i < INNER ==> #[trigger] inner_block(body)[i] == 0,
{
    let len = be_bytes(body.len(), 2);
    lemma_be_bytes_len(body.len(), 2);
    lemma_be_range_2();
    lemma_be_value_of_bytes(body.len(), 2);
    law_be_value_2(len);
    assert(inner_block(body)[0] == len[0] && inner_block(body)[1] == len[1]);
    assert(inner_block(body).subrange(2, 2 + body.len() as int) =~= body);
}

/// Whether a plaintext block holds a post: behind two bytes that count the
/// bytes to look at, it stands at their front as it is written.
pub open spec fn holds_post(block: Seq<u8>, p: PostView) -> bool {
    &&& block.len() >= 2
    &&& 2 + 256 * block[0] + block[1] <= block.len()
    &&& encode_utf8(p.board).len() <= 255
    &&& encode_utf8(p.nick).len() <= 255
    &&& encode_utf8(p.text).len() <= 65_535
    &&& written(p).is_prefix_of(block.subrange(2, 2 + 256 * block[0] + block[1]))
}

/// A frame opens to a post exactly where what stands behind its id and nonce
/// decrypts, under that nonce, to a block that holds the post. Its id does
/// not matter.
pub proof fn law_opened_is_what_was_sealed(
    key: Seq<u8>,
    id: Seq<u8>,
    nonce: Seq<u8>,
    ciphertext: Seq<u8>,
    p: PostView,
)
    requires
        id.len() == 32,
        nonce.len() == 12,
        ciphertext.len() <= MAX_PLAINTEXT + 16,
    ensures
        opened(key, id + nonce + ciphertext) == Some(p) <==> match chacha_decrypt(
            key,
            nonce,
            ciphertext,
        ) {
            Some(block) => holds_post(block, p),
            None => false,
        },
{
    let frame = id + nonce + ciphertext;
    assert(frame_nonce(frame) =~= nonce);
    assert(frame_ciphertext(frame) =~= ciphertext);
    if let Some(block) = chacha_decrypt(key, nonce, ciphertext) {
        if block.len() >= 2 {
            let header = block.subrange(0, 2);
            law_be_value_2(header);
            let end = 2 + 256 * block[0] + block[1];
            if end <= block.len() {
                law_parsed_is_the_front(block.subrange(2, end), p);
            }
        }
    }
}

/// A frame without room for an id and a nonce carries nothing.
pub proof fn law_short_frame(key: Seq<u8>, frame: Seq<u8>)
    requires
        frame.len() < 44,
    ensures
        opened(key, frame) is None,
{
}

/// A sealed payload is the nonce and, under the key and that nonce, the
/// ciphertext of a block of the full width that counts the written post,
/// holds it, and is zero behind it.
pub proof fn law_sealed_layout(key: Seq<u8>, nonce: Seq<u8>, p: PostView)
    requires
        nonce.len() == 12,
        fits(p),
    ensures
        sealed(key, nonce, p).take(12) == nonce,
        exists|block: Seq<u8>|
            {
                &&& sealed(key, nonce, p).skip(12) == #[trigger] chacha_encrypt(key, nonce, block)
                &&& block.len() == 452
                &&& 256 * block[0] + block[1] == written(p).len()
                &&& block.subrange(2, 2 + written(p).len() as int) == written(p)
                &&& forall|i: int|
                    2 + written(p).len() <= i < block.len() ==> #[trigger] block[i] == 0
            },
{
    let block = inner_block(written(p));
    law_block_layout(written(p));
    assert(sealed(key, nonce, p).take(12) =~= nonce);
    assert(sealed(key, nonce, p).skip(12) =~= chacha_encrypt(key, nonce, block));
}

/// A post keeps everything as a mathematical value.
pub proof fn law_post_kept(post: Post)
    ensures
        post@.board == post.board@,
        post@.nick == post.nick@,
        post@.ts == post.ts,
        post@.text == post.text@,
        post_view(Some(post)) == Some(post@),
        post_view(None) is None,
{
}

/// Every node has the same key.
pub proof fn law_board_key(a: Cipher, b: Cipher)
    requires
        call_ensures(board_key, (), a),
        call_ensures(board_key, (), b),
    ensures
        a@ == b@,
        a@.len() == 32,
        forall|i: int| 0 <= i < 32 ==> #[trigger] a@[i] == 0x42,
{
}

/// `encode` turns a post down for its length alone, and what it writes is read
/// back by `decode`, whatever stands behind it.
pub proof fn law_encode_decode(post: &Post, r: Option<Vec<u8>>, buf: &[u8], back: Option<Post>)
    requires
        call_ensures(Post::encode, (post,), r),
        call_ensures(Post::decode, (buf,), back),
        r matches Some(out) ==> out@.is_prefix_of(buf@),
    ensures
        r is Some <==> encode_utf8(post.board@).len() <= 255 && encode_utf8(post.nick@).len() <= 255
            && 12 + encode_utf8(post.board@).len() + encode_utf8(post.nick@).len() + encode_utf8(
            post.text@,
        ).len() <= 450,
        r matches Some(out) ==> out@.len() == 12 + encode_utf8(post.board@).len() + encode_utf8(
            post.nick@,
        ).len() + encode_utf8(post.text@).len(),
        r is Some ==> {
            &&& back matches Some(p)
            &&& p.board@ == post.board@
            &&& p.nick@ == post.nick@
            &&& p.ts == post.ts
            &&& p.text@ == post.text@
        },
{
    law_fits_by_length(post@);
    law_written_len(post@);
    if r is Some {
        law_parsed_is_the_front(buf@, post@);
    }
}

/// `seal` turns a post down for its length alone, and behind any id the other
/// end, if it has the key, opens what it seals to the same post.
pub proof fn law_seal_open(
    cipher: &Cipher,
    other: &Cipher,
    post: &Post,
    r: Option<Vec<u8>>,
    id: Seq<u8>,
    frame: &[u8],
    back: Option<Post>,
)
    requires
        call_ensures(seal, (cipher, post), r),
        call_ensures(open, (other, frame), back),
        other@ == cipher@,
        id.len() == 32,
        r matches Some(payload) ==> frame@ == id + payload@,
    ensures
        r is Some <==> encode_utf8(post.board@).len() <= 255 && encode_utf8(post.nick@).len() <= 255
            && 12 + encode_utf8(post.board@).len() + encode_utf8(post.nick@).len() + encode_utf8(
            post.text@,
        ).len() <= 450,
        r matches Some(payload) ==> payload@.len() == 480,
        r is Some ==> {
            &&& back matches Some(p)
            &&& p.board@ == post.board@
            &&& p.nick@ == post.nick@
            &&& p.ts == post.ts
            &&& p.text@ == post.text@
        },
{
    law_fits_by_length(post@);
}

} // verus!
