//! Turning registrations and serialized messages into frames, and frames back
//! into them.
//!
//! A frame is `size (4 bytes, big-endian) | state (1 byte) | data`, where
//! `size` counts the state byte and the data. State 0 means the data is the
//! sender's name in UTF-8; state 1 means it is a serialized user message.
use crate::buffer::{buffer_clear, buffer_contents, buffer_extend, buffer_len, buffer_to_vec};
use crate::header::{
    be_bytes,
    be_value,
    four_vecu8_to_number,
    header_bytes_roundtrip,
    header_limit,
    header_number_roundtrip,
    number_to_four_vecu8,
    DATA_SIZE,
};
use bytes::BytesMut;
use std::marker::PhantomData;
use vstd::prelude::*;
use vstd::slice::slice_to_vec;
use vstd::utf8::{decode_utf8, encode_utf8, encode_utf8_decode_utf8, encode_utf8_valid_utf8, valid_utf8};

verus! {

/// State byte of a frame that registers its sender's name.
pub const REGISTER_STATE: u8 = 0;

/// State byte of a frame that carries a user message.
pub const MESSAGE_STATE: u8 = 1;

/// What a buffer holds, read as one frame.
pub enum FrameKind {
    /// Fewer bytes than the header, or a size that differs from the number
    /// of bytes after the header.
    Incomplete,
    /// A header of size 0 with nothing after it.
    EmptyFrame,
    /// A complete registration frame; the field is the name's bytes.
    Register(Seq<u8>),
    /// A complete message frame; the field is the serialized message.
    Message(Seq<u8>),
    /// A complete frame whose state byte is neither 0 nor 1.
    UnknownState(u8),
}

/// How the whole of `buf` reads as a frame.
pub open spec fn frame_kind(buf: Seq<u8>) -> FrameKind {
    if buf.len() < DATA_SIZE {
        FrameKind::Incomplete
    } else if buf.len() - DATA_SIZE != be_value(buf.take(DATA_SIZE as int)) {
        FrameKind::Incomplete
    } else if buf.len() == DATA_SIZE {
        FrameKind::EmptyFrame
    } else if buf[DATA_SIZE as int] == REGISTER_STATE {
        FrameKind::Register(buf.skip(DATA_SIZE + 1))
    } else if buf[DATA_SIZE as int] == MESSAGE_STATE {
        FrameKind::Message(buf.skip(DATA_SIZE + 1))
    } else {
        FrameKind::UnknownState(buf[DATA_SIZE as int])
    }
}

/// The buffers that decoding accepts: all but a complete frame that is empty,
/// has an unknown state, or registers a name that is not UTF-8.
pub open spec fn decodable(buf: Seq<u8>) -> bool {
    match frame_kind(buf) {
        FrameKind::EmptyFrame => false,
        FrameKind::UnknownState(_) => false,
        FrameKind::Register(name) => valid_utf8(name),
        _ => true,
    }
}

/// The frame with the given state byte and data.
pub open spec fn frame_bytes(state: u8, data: Seq<u8>) -> Seq<u8> {
    be_bytes(data.len() + 1) + seq![state] + data
}

/// The data of the frame that carries `item` for a codec named `name`: the
/// name's UTF-8 bytes for a registration (`None`), else the message.
pub open spec fn item_data(name: Seq<char>, item: Option<Seq<u8>>) -> Seq<u8> {
    match item {
        None => encode_utf8(name),
        Some(message) => message,
    }
}

/// The state byte of the frame that carries `item`.
pub open spec fn item_state(item: Option<Seq<u8>>) -> u8 {
    match item {
        None => REGISTER_STATE,
        Some(_) => MESSAGE_STATE,
    }
}

/// The frame that carries `item` for a codec named `name`.
pub open spec fn item_frame(name: Seq<char>, item: Option<Seq<u8>>) -> Seq<u8> {
    frame_bytes(item_state(item), item_data(name, item))
}

/// Whether the frame for `item` can be written: its size (state byte and
/// data) must fit in the four-byte header.
pub open spec fn item_fits(name: Seq<char>, item: Option<Seq<u8>>) -> bool {
    item_data(name, item).len() + 1 < header_limit()
}

/// The view of an optional byte vector.
pub open spec fn opt_bytes(item: Option<Vec<u8>>) -> Option<Seq<u8>> {
    match item {
        None => None,
        Some(v) => Some(v@),
    }
}

/// A buffer read as one frame, with the frame's bytes handed out.
#[derive(Debug, PartialEq, Eq)]
pub enum FrameParse {
    /// Not a whole frame (yet).
    Incomplete,
    /// A header of size 0 with nothing after it.
    EmptyFrame,
    /// A registration; the field is the name's bytes.
    Register(Vec<u8>),
    /// A user message; the field is its serialized bytes.
    Message(Vec<u8>),
    /// A frame whose state byte is neither 0 nor 1.
    UnknownState(u8),
}

impl View for FrameParse {
    type V = FrameKind;

    open spec fn view(&self) -> FrameKind {
        match self {
            FrameParse::Incomplete => FrameKind::Incomplete,
            FrameParse::EmptyFrame => FrameKind::EmptyFrame,
            FrameParse::Register(name) => FrameKind::Register(name@),
            FrameParse::Message(data) => FrameKind::Message(data@),
            FrameParse::UnknownState(state) => FrameKind::UnknownState(*state),
        }
    }
}

/// `String::from_utf8`: the string whose UTF-8 encoding is `bytes`, or
/// `None` where `bytes` is not UTF-8.
#[verifier::external_body]
fn string_from_utf8(bytes: Vec<u8>) -> (s: Option<String>)
    ensures
        s is Some <==> valid_utf8(bytes@),
        s matches Some(text) ==> text@ == decode_utf8(bytes@),
{
    match String::from_utf8(bytes) {
        Ok(text) => Some(text),
        Err(_) => None,
    }
}

/// Reads the whole of `vec` as one frame: its header, then its state byte,
/// then its data.
pub fn parse_frame(vec: Vec<u8>) -> (frame: FrameParse)
    ensures
        frame@ == frame_kind(vec@),
{
    if vec.len() < DATA_SIZE {
        return FrameParse::Incomplete;
    }
    let ghost whole = vec@;
    let mut vec = vec;
    let mut truth_data = vec.split_off(DATA_SIZE);
    assert(vec@ == whole.take(DATA_SIZE as int));
    let vec_length = four_vecu8_to_number(vec);
    if truth_data.len() as u64 == vec_length {
        if truth_data.len() == 0 {
            return FrameParse::EmptyFrame;
        }
        let msg_data = truth_data.split_off(1);
        assert(msg_data@ =~= whole.skip(DATA_SIZE + 1));
        let state = truth_data[0];
        if state == REGISTER_STATE {
            FrameParse::Register(msg_data)
        } else if state == MESSAGE_STATE {
            FrameParse::Message(msg_data)
        } else {
            FrameParse::UnknownState(state)
        }
    } else {
        FrameParse::Incomplete
    }
}

/// Encodes registrations and messages into frames, and decodes frames back.
/// `T` is the type of the user messages whose serialized bytes it carries.
#[derive(Debug)]
pub struct MessageCodec<T> {
    name: String,
    phantom: PhantomData<T>,
}

impl<T> MessageCodec<T> {
    /// The name that registration frames of this codec carry.
    pub closed spec fn name_chars(&self) -> Seq<char> {
        self.name@
    }

    /// A codec whose registration frames carry `name`.
    pub fn new(name: String) -> (codec: MessageCodec<T>)
        ensures
            codec.name_chars() == name@,
    {
        MessageCodec { name: name, phantom: PhantomData }
    }

    /// Appends to `dst` the frame for `item`: a registration carrying this
    /// codec's name for `None`, the serialized message for `Some`.
    pub fn encode(&mut self, item: Option<Vec<u8>>, dst: &mut BytesMut)
        requires
            item_fits(old(self).name_chars(), opt_bytes(item)),
            buffer_contents(*old(dst)).len() + item_frame(
                old(self).name_chars(),
                opt_bytes(item),
            ).len() <= isize::MAX,
        ensures
            final(self).name_chars() == old(self).name_chars(),
            buffer_contents(*final(dst)) == buffer_contents(*old(dst)) + item_frame(
                old(self).name_chars(),
                opt_bytes(item),
            ),
    {
        let ghost item_view = opt_bytes(item);
        let mut data: Vec<u8> = Vec::new();
        match item {
            None => {
                data.push(REGISTER_STATE);
                let mut name = slice_to_vec(self.name.as_str().as_bytes());
                data.append(&mut name);
            },
            Some(v) => {
                data.push(MESSAGE_STATE);
                let mut v = v;
                data.append(&mut v);
            },
        }
        assert(data@ =~= seq![item_state(item_view)] + item_data(self.name@, item_view));
        let mut encoder: Vec<u8> = number_to_four_vecu8(data.len() as u64);
        encoder.append(&mut data);
        assert(encoder@ =~= item_frame(self.name@, item_view));
        buffer_extend(dst, encoder.as_slice());
    }

    /// Takes one frame out of `src` when `src` holds exactly one whole frame:
    /// `(Some(name), None)` for a registration, `(None, Some(message))` for a
    /// user message, and `src` is emptied. Otherwise returns `None` and leaves
    /// `src` as it is.
    pub fn decode(&mut self, src: &mut BytesMut) -> (item: Option<(Option<String>, Option<Vec<u8>>)>)
        requires
            decodable(buffer_contents(*old(src))),
        ensures
            final(self).name_chars() == old(self).name_chars(),
            match frame_kind(buffer_contents(*old(src))) {
                FrameKind::Register(name) => {
                    &&& item matches Some((Some(text), None)) && text@ == decode_utf8(name)
                    &&& buffer_contents(*final(src)) == Seq::<u8>::empty()
                },
                FrameKind::Message(data) => {
                    &&& item matches Some((None, Some(message))) && message@ == data
                    &&& buffer_contents(*final(src)) == Seq::<u8>::empty()
                },
                _ => {
                    &&& item is None
                    &&& buffer_contents(*final(src)) == buffer_contents(*old(src))
                },
            },
    {
        if buffer_len(src) < DATA_SIZE {
            return None;
        }
        let vec = buffer_to_vec(src);
        match parse_frame(vec) {
            FrameParse::Register(name_bytes) => {
                buffer_clear(src);
                match string_from_utf8(name_bytes) {
                    Some(name) => Some((Some(name), None)),
                    None => None,
                }
            },
            FrameParse::Message(data) => {
                buffer_clear(src);
                Some((None, Some(data)))
            },
            _ => None,
        }
    }
}

/// A buffer reads as a whole frame only when its length is four plus the
/// number in its first four bytes (most significant first); a buffer of any
/// other length, such as one frame and part or all of the next, is not read.
pub proof fn frame_needs_exact_size(buf: Seq<u8>)
    ensures
        (frame_kind(buf) is Incomplete) <==> (buf.len() < 4 || buf.len() != 4 + ((buf[0] as nat)
            * 0x100_0000 + (buf[1] as nat) * 0x1_0000 + (buf[2] as nat) * 0x100 + (buf[3] as nat))),
{
    if buf.len() >= 4 {
        let head = buf.take(4);
        assert(head[0] == buf[0] && head[1] == buf[1] && head[2] == buf[2] && head[3] == buf[3]);
    }
}

/// A complete frame, whose first four bytes hold the number of bytes after
/// them, reads by its fifth byte: 0 as a registration of the rest, 1 as the
/// message made of the rest, any other value as an unknown state.
pub proof fn complete_frame_reads_by_state(data: Seq<u8>, state: u8)
    requires
        data.len() + 1 < 0x1_0000_0000,
    ensures
        ({
            let frame = seq![
                (((data.len() + 1) / 0x100_0000) % 0x100) as u8,
                (((data.len() + 1) / 0x1_0000) % 0x100) as u8,
                (((data.len() + 1) / 0x100) % 0x100) as u8,
                ((data.len() + 1) % 0x100) as u8,
                state,
            ] + data;
            &&& state == 0 ==> frame_kind(frame) == FrameKind::Register(data)
            &&& state == 1 ==> frame_kind(frame) == FrameKind::Message(data)
            &&& state >= 2 ==> frame_kind(frame) == FrameKind::UnknownState(state)
        }),
{
    let n = data.len() + 1;
    let frame = seq![
        ((n / 0x100_0000) % 0x100) as u8,
        ((n / 0x1_0000) % 0x100) as u8,
        ((n / 0x100) % 0x100) as u8,
        (n % 0x100) as u8,
        state,
    ] + data;
    header_number_roundtrip(n);
    assert(frame.take(4) =~= be_bytes(n));
    assert(frame.skip(5) =~= data);
    assert(frame[4] == state);
}

/// The frame written for an item is: four bytes holding, most significant
/// first, the number of bytes after them; the state byte, 0 for a
/// registration and 1 for a message, whatever the data's length; then the
/// data, which is the name in UTF-8 for a registration and the message for a
/// message.
pub proof fn item_frame_layout(name: Seq<char>, item: Option<Seq<u8>>)
    requires
        item_fits(name, item),
    ensures
        ({
            let data = match item {
                None => encode_utf8(name),
                Some(message) => message,
            };
            let frame = item_frame(name, item);
            &&& frame.len() == data.len() + 5
            &&& (frame[0] as nat) * 0x100_0000 + (frame[1] as nat) * 0x1_0000 + (frame[2] as nat)
                * 0x100 + (frame[3] as nat) == data.len() + 1
            &&& frame[4] == (if item is None {
                0u8
            } else {
                1u8
            })
            &&& frame.skip(5) == data
        }),
{
    let data = item_data(name, item);
    let frame = item_frame(name, item);
    header_number_roundtrip(data.len() + 1);
    let head = frame.take(4);
    assert(head =~= be_bytes(data.len() + 1));
    assert(head[0] == frame[0] && head[1] == frame[1] && head[2] == frame[2] && head[3] == frame[3]);
    assert(frame.skip(5) =~= data);
}

/// Reading back the frame written for an item gives the item: a registration
/// frame reads as the name's UTF-8 bytes, which decode to the name, and a
/// message frame reads as the message bytes.
pub proof fn frame_roundtrip(name: Seq<char>, item: Option<Seq<u8>>)
    requires
        item_fits(name, item),
    ensures
        frame_kind(item_frame(name, item)) == (match item {
            None => FrameKind::Register(encode_utf8(name)),
            Some(message) => FrameKind::Message(message),
        }),
        decodable(item_frame(name, item)),
        item is None ==> decode_utf8(encode_utf8(name)) == name,
{
    let data = item_data(name, item);
    let frame = item_frame(name, item);
    header_number_roundtrip(data.len() + 1);
    assert(frame.take(DATA_SIZE as int) =~= be_bytes(data.len() + 1));
    assert(frame.skip(DATA_SIZE + 1) =~= data);
    encode_utf8_valid_utf8(name);
    encode_utf8_decode_utf8(name);
}

/// No proper prefix of a frame reads as a frame: a frame that has arrived
/// only in part is left for later.
pub proof fn partial_frame_incomplete(name: Seq<char>, item: Option<Seq<u8>>, received: int)
    requires
        item_fits(name, item),
        0 <= received < item_frame(name, item).len(),
    ensures
        frame_kind(item_frame(name, item).take(received)) == FrameKind::Incomplete,
{
    let data = item_data(name, item);
    let frame = item_frame(name, item);
    let part = frame.take(received);
    header_number_roundtrip(data.len() + 1);
    if received >= DATA_SIZE {
        assert(part.take(DATA_SIZE as int) =~= be_bytes(data.len() + 1));
    }
}

/// A buffer that reads as a frame is exactly the frame written for what it
/// carries: decoding a frame and encoding its contents again gives back the
/// same bytes.
pub proof fn frame_reencode(buf: Seq<u8>)
    requires
        frame_kind(buf) matches FrameKind::Register(_) || frame_kind(buf) matches FrameKind::Message(_),
    ensures
        frame_kind(buf) matches FrameKind::Register(name) ==> buf =~= frame_bytes(REGISTER_STATE, name),
        frame_kind(buf) matches FrameKind::Message(data) ==> buf =~= frame_bytes(MESSAGE_STATE, data),
{
    let head = buf.take(DATA_SIZE as int);
    header_bytes_roundtrip(head);
    assert(buf =~= head + seq![buf[DATA_SIZE as int]] + buf.skip(DATA_SIZE + 1));
}

} // verus!
