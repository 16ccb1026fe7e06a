//! What holds of a codec whose buffer fills up piece by piece.
use crate::frame::{frame, front, receive, FrameRead, Front, Received, SubStreamLabel, HDR_LEN};
use crate::frame_laws::{
    law_decode_does_not_look_ahead, law_decode_what_was_written, law_read_and_decode_agree,
};
use crate::log_laws::joined;
use crate::stream_laws::{all_sendable, wire, FrameView};
use vstd::prelude::*;

verus! {

/// A frame that was decoded: its label, and its bytes with the header.
#[verifier::ext_equal]
pub struct Item {
    pub label: SubStreamLabel,
    pub bytes: Seq<u8>,
}

/// What decoding has come to: the frames so far, what is left in the buffer, and whether it was
/// refused because of a byte that is no label.
#[verifier::ext_equal]
pub struct Decoding {
    pub items: Seq<Item>,
    pub rest: Seq<u8>,
    pub refused: bool,
}

/// Decodes from a buffer until nothing more comes of it.
pub open spec fn decode_on(buf: Seq<u8>) -> Decoding
    decreases buf.len(),
{
    match front(buf) {
        Front::Incomplete => Decoding { items: Seq::empty(), rest: buf, refused: false },
        Front::Unknown(_) => Decoding { items: Seq::empty(), rest: buf, refused: true },
        Front::Frame { label, len } => {
            let more = decode_on(buf.skip(len as int));
            Decoding { items: seq![Item { label, bytes: buf.take(len as int) }] + more.items, ..more }
        },
    }
}

/// Takes in the pieces one by one, and decodes after each until nothing more comes of it.
pub open spec fn decode_pieces(pieces: Seq<Seq<u8>>) -> Decoding
    decreases pieces.len(),
{
    if pieces.len() == 0 {
        Decoding { items: Seq::empty(), rest: Seq::empty(), refused: false }
    } else {
        let before = decode_pieces(pieces.drop_last());
        let more = decode_on(before.rest + pieces.last());
        Decoding {
            items: before.items + more.items,
            rest: more.rest,
            refused: before.refused || more.refused,
        }
    }
}

/// The frames that were sent, as they are decoded.
pub open spec fn items_of(frames: Seq<FrameView>) -> Seq<Item> {
    Seq::new(
        frames.len(),
        |i: int| Item { label: frames[i].label, bytes: frame(frames[i].label, frames[i].data) },
    )
}

/// The bytes of the items, one behind the other.
pub open spec fn bytes_of(items: Seq<Item>) -> Seq<u8>
    decreases items.len(),
{
    if items.len() == 0 {
        Seq::empty()
    } else {
        items[0].bytes + bytes_of(items.drop_first())
    }
}

/// Decoding loses nothing and makes up nothing: the frames and what is left are what was in the
/// buffer.
pub proof fn law_decoding_loses_nothing(buf: Seq<u8>)
    ensures
        bytes_of(decode_on(buf).items) + decode_on(buf).rest == buf,
    decreases buf.len(),
{
    match front(buf) {
        Front::Frame { label, len } => {
            let rest = buf.skip(len as int);
            let items = decode_on(buf).items;
            law_decoding_loses_nothing(rest);
            assert(items.drop_first() =~= decode_on(rest).items);
            assert(bytes_of(items) + decode_on(buf).rest =~= buf.take(len as int) + (bytes_of(
                decode_on(rest).items,
            ) + decode_on(rest).rest));
            assert(buf.take(len as int) + rest =~= buf);
        },
        _ => {
            assert(bytes_of(decode_on(buf).items) + decode_on(buf).rest =~= buf);
        },
    }
}

/// It makes no difference whether bytes are decoded before more arrive: unless they are refused, the
/// same frames are found, and the same is left.
pub proof fn law_decoding_can_pause(a: Seq<u8>, b: Seq<u8>)
    ensures
        decode_on(a).refused ==> decode_on(a + b).refused,
        !decode_on(a).refused ==> decode_on(a + b) == (Decoding {
            items: decode_on(a).items + decode_on(decode_on(a).rest + b).items,
            ..decode_on(decode_on(a).rest + b)
        }),
    decreases a.len(),
{
    match front(a) {
        Front::Incomplete => {
            assert(decode_on(a).items + decode_on(a + b).items =~= decode_on(a + b).items);
        },
        Front::Unknown(_) => {
            law_decode_does_not_look_ahead(a, b);
        },
        Front::Frame { label, len } => {
            let rest = a.skip(len as int);
            law_decode_does_not_look_ahead(a, b);
            law_decoding_can_pause(rest, b);
            assert((a + b).skip(len as int) =~= rest + b);
            assert((a + b).take(len as int) =~= a.take(len as int));
            if !decode_on(a).refused {
                assert(decode_on(a + b).items =~= decode_on(a).items + decode_on(
                    decode_on(a).rest + b,
                ).items);
            }
        },
    }
}

/// However bytes arrive, decoding them piece by piece finds what decoding them at once finds, unless
/// they are refused.
pub proof fn law_pieces_make_no_difference(pieces: Seq<Seq<u8>>)
    requires
        !decode_on(joined(pieces)).refused,
    ensures
        decode_pieces(pieces) == decode_on(joined(pieces)),
    decreases pieces.len(),
{
    if pieces.len() == 0 {
        assert(decode_pieces(pieces) =~= decode_on(joined(pieces)));
    } else {
        let before = joined(pieces.drop_last());
        law_decoding_can_pause(before, pieces.last());
        law_pieces_make_no_difference(pieces.drop_last());
        assert(decode_pieces(pieces) =~= decode_on(joined(pieces)));
    }
}

/// Frames that were written one behind the other are decoded in order, each once, and nothing is
/// left.
pub proof fn law_decode_all_that_was_written(frames: Seq<FrameView>)
    requires
        all_sendable(frames),
    ensures
        decode_on(wire(frames)) == (Decoding {
            items: items_of(frames),
            rest: Seq::empty(),
            refused: false,
        }),
    decreases frames.len(),
{
    if frames.len() == 0 {
        assert(decode_on(wire(frames)).items =~= items_of(frames));
    } else {
        let rest = frames.drop_first();
        assert forall|i: int| 0 <= i < rest.len() implies (#[trigger] rest[i]).data.len()
            <= crate::frame::max_data_len() by {
            assert(rest[i] == frames[i + 1]);
        }
        law_decode_all_that_was_written(rest);
        law_decode_what_was_written(frames[0].label, frames[0].data, wire(rest));
        assert(decode_on(wire(frames)).items =~= items_of(frames));
    }
}

/// Frames that were written one behind the other and arrive in pieces of any size, decoded after
/// each piece until nothing more comes, are found in order, each once. None is refused and nothing
/// is left. Behind the header of each is the data that was written, which is what reading the frame
/// gives, and the frames together are all the bytes that were written.
pub proof fn law_frames_arrive_in_any_pieces(frames: Seq<FrameView>, pieces: Seq<Seq<u8>>)
    requires
        all_sendable(frames),
        joined(pieces) == wire(frames),
    ensures
        decode_pieces(pieces) == (Decoding {
            items: items_of(frames),
            rest: Seq::empty(),
            refused: false,
        }),
        bytes_of(decode_pieces(pieces).items) == wire(frames),
        decode_pieces(pieces).items.len() == frames.len(),
        forall|i: int|
            #![trigger frames[i]]
            0 <= i < frames.len() ==> {
                let item = decode_pieces(pieces).items[i];
                &&& item.label == frames[i].label
                &&& item.bytes.skip(HDR_LEN as int) == frames[i].data
                &&& receive(FrameRead::Header, item.bytes) == (Received::Frame {
                    label: frames[i].label,
                    data: frames[i].data,
                    rest: Seq::empty(),
                })
            },
{
    law_decode_all_that_was_written(frames);
    law_pieces_make_no_difference(pieces);
    law_decoding_loses_nothing(wire(frames));
    assert(bytes_of(items_of(frames)) + Seq::empty() =~= bytes_of(items_of(frames)));
    assert forall|i: int|
        #![trigger frames[i]]
        0 <= i < frames.len() implies {
        let item = decode_pieces(pieces).items[i];
        &&& item.label == frames[i].label
        &&& item.bytes.skip(HDR_LEN as int) == frames[i].data
        &&& receive(FrameRead::Header, item.bytes) == (Received::Frame {
            label: frames[i].label,
            data: frames[i].data,
            rest: Seq::empty(),
        })
    } by {
        let item = decode_pieces(pieces).items[i];
        let data = frames[i].data;
        law_decode_what_was_written(frames[i].label, data, Seq::empty());
        assert(frame(frames[i].label, data) + Seq::empty() =~= item.bytes);
        law_read_and_decode_agree(item.bytes);
        assert(item.bytes.skip(HDR_LEN as int) =~= data);
        assert(item.bytes.subrange(HDR_LEN as int, item.bytes.len() as int) =~= data);
        assert(item.bytes.skip(item.bytes.len() as int) =~= Seq::empty());
    }
}

} // verus!
