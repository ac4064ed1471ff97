//! The wire protocol: one frame per line, integer fields separated by commas.

use vstd::prelude::*;
use vstd::slice::slice_subrange;
use crate::decimal::{bounded_integer_text, decimal_text, integer_text, lemma_decimal_round_trip,
    lemma_decimal_text_is_plain, parse_i32, parse_i64};
use crate::sample::{RawSample, SampleView};
use crate::text::{joined, lemma_joined_ends, lemma_joined_lacks, lemma_split_joined,
    lemma_trimmed_identity, split, split_bounds, trim, trimmed};

verus! {

/// The value of a channel field, when it is a 32-bit integer.
pub open spec fn channel_field(field: Seq<char>) -> Option<int> {
    bounded_integer_text(field, i32::MIN as int, i32::MAX as int)
}

/// The value of a timestamp field, when it is a 64-bit integer.
pub open spec fn timestamp_field(field: Seq<char>) -> Option<int> {
    bounded_integer_text(field, i64::MIN as int, i64::MAX as int)
}

/// The channel readings written by five fields, when every field is one.
pub open spec fn channel_fields(fields: Seq<Seq<char>>) -> Option<Seq<int>> {
    if fields.len() == 5 && forall|i: int| 0 <= i < 5 ==> channel_field(#[trigger] fields[i]) is Some {
        Some(Seq::new(5, |i: int| channel_field(fields[i])->0))
    } else {
        None
    }
}

/// The sample carried by one line of the stream, if the line is a valid frame.
///
/// The line is trimmed and split on commas. Five integer fields are the
/// channel readings of a frame stamped by the host with `host_ms`; six are a
/// device timestamp followed by the channel readings. Anything else is not a
/// frame.
pub open spec fn frame_of(line: Seq<char>, host_ms: int) -> Option<SampleView> {
    let fields = split(trimmed(line), ',');
    if trimmed(line).len() == 0 {
        None
    } else if fields.len() == 5 {
        match channel_fields(fields) {
            Some(channels) => Some(SampleView { timestamp: host_ms, channels }),
            None => None,
        }
    } else if fields.len() == 6 {
        match (timestamp_field(fields[0]), channel_fields(fields.skip(1))) {
            (Some(timestamp), Some(channels)) => Some(SampleView { timestamp, channels }),
            _ => None,
        }
    } else {
        None
    }
}

/// The wire text of a frame without timestamp: the decimal texts of the
/// five readings, separated by commas.
pub open spec fn frame_text(channels: Seq<int>) -> Seq<char> {
    joined(Seq::new(5, |i: int| decimal_text(channels[i])), ',')
}

/// Parses one line of the stream into a sample.
///
/// Returns the sample exactly when the line is a valid frame; malformed lines
/// yield `None`.
pub fn parse_frame(line: &[char], host_ms: i64) -> (r: Option<RawSample>)
    ensures
        match r {
            Some(sample) => frame_of(line@, host_ms as int) == Some(sample@),
            None => frame_of(line@, host_ms as int) is None,
        },
{
    let body = trim(line);
    if body.len() == 0 {
        return None;
    }
    let bounds = split_bounds(body, ',');
    let ghost fields = split(body@, ',');
    let count = bounds.len();
    if count != 5 && count != 6 {
        return None;
    }
    let offset: usize = count - 5;
    let mut timestamp: i64 = host_ms;
    if count == 6 {
        let (lo, hi) = bounds[0];
        match parse_i64(slice_subrange(body, lo, hi)) {
            Some(t) => {
                timestamp = t;
            },
            None => {
                return None;
            },
        }
    }
    let ghost tail = fields.skip(offset as int);
    let mut channels: [i32; 5] = [0, 0, 0, 0, 0];
    let mut k: usize = 0;
    while k < 5
        invariant
            k <= 5,
            count == 5 + offset,
            offset <= 1,
            body@ == trimmed(line@),
            body@.len() > 0,
            bounds@.len() == count,
            fields == split(body@, ','),
            fields.len() == count,
            tail == fields.skip(offset as int),
            forall|j: int|
                0 <= j < bounds@.len() ==> {
                    &&& (#[trigger] bounds@[j]).0 <= bounds@[j].1 <= body@.len()
                    &&& body@.subrange(bounds@[j].0 as int, bounds@[j].1 as int) == fields[j]
                },
            forall|j: int|
                0 <= j < k ==> channel_field(#[trigger] tail[j]) == Some(channels@[j] as int),
        decreases 5 - k,
    {
        let (lo, hi) = bounds[offset + k];
        match parse_i32(slice_subrange(body, lo, hi)) {
            Some(v) => {
                channels[k] = v;
            },
            None => {
                proof {
                    assert(tail[k as int] == fields[offset + k]);
                    assert(channel_field(tail[k as int]) is None);
                    if count == 5 {
                        assert(tail =~= fields);
                    }
                    assert(channel_fields(tail) is None);
                }
                return None;
            },
        }
        proof {
            assert(tail[k as int] == fields[offset + k]);
        }
        k = k + 1;
    }
    let sample = RawSample { timestamp, channels };
    proof {
        assert(tail.len() == 5);
        if count == 5 {
            assert(tail =~= fields);
        }
        assert(channel_fields(tail) is Some);
        assert(channel_fields(tail)->0 =~= sample@.channels);
    }
    Some(sample)
}

/// A line of five integer fields is a frame: it carries the five integers,
/// in field order, stamped with the host's time.
pub proof fn lemma_five_integers_are_a_frame(line: Seq<char>, host_ms: int)
    requires
        split(trimmed(line), ',').len() == 5,
        forall|i: int| 0 <= i < 5 ==> channel_field(#[trigger] split(trimmed(line), ',')[i]) is Some,
    ensures
        frame_of(line, host_ms) == Some(
            SampleView {
                timestamp: host_ms,
                channels: Seq::new(5, |i: int| channel_field(split(trimmed(line), ',')[i])->0),
            },
        ),
{
    if trimmed(line).len() == 0 {
        assert(split(trimmed(line), ',') =~= seq![Seq::<char>::empty()]);
    }
}

/// A line of six integer fields is a frame that brings its own timestamp.
pub proof fn lemma_six_integers_are_a_frame(line: Seq<char>, host_ms: int)
    requires
        split(trimmed(line), ',').len() == 6,
        timestamp_field(split(trimmed(line), ',')[0]) is Some,
        forall|i: int| 1 <= i < 6 ==> channel_field(#[trigger] split(trimmed(line), ',')[i]) is Some,
    ensures
        frame_of(line, host_ms) == Some(
            SampleView {
                timestamp: timestamp_field(split(trimmed(line), ',')[0])->0,
                channels: Seq::new(5, |i: int| channel_field(split(trimmed(line), ',')[i + 1])->0),
            },
        ),
{
    let fields = split(trimmed(line), ',');
    let tail = fields.skip(1);
    if trimmed(line).len() == 0 {
        assert(fields =~= seq![Seq::<char>::empty()]);
    }
    assert forall|i: int| 0 <= i < 5 implies channel_field(#[trigger] tail[i]) is Some by {
        assert(tail[i] == fields[i + 1]);
    }
    assert(channel_fields(tail)->0 =~= Seq::new(5, |i: int| channel_field(fields[i + 1])->0));
}

/// A line is not a frame when it has neither five nor six fields, or when
/// any of its fields is not an integer.
pub proof fn lemma_malformed_line_is_no_frame(line: Seq<char>, host_ms: int)
    requires
        ({
            let fields = split(trimmed(line), ',');
            ||| fields.len() != 5 && fields.len() != 6
            ||| exists|i: int| 0 <= i < fields.len() && integer_text(#[trigger] fields[i]) is None
        }),
    ensures
        frame_of(line, host_ms) is None,
{
    let fields = split(trimmed(line), ',');
    if fields.len() == 5 || fields.len() == 6 {
        let i = choose|i: int| 0 <= i < fields.len() && integer_text(#[trigger] fields[i]) is None;
        if fields.len() == 5 {
            assert(channel_field(fields[i]) is None);
        } else if i > 0 {
            assert(fields.skip(1)[i - 1] == fields[i]);
            assert(channel_field(fields.skip(1)[i - 1]) is None);
        }
    }
}

/// A frame carries five channel readings, each a 32-bit integer, and a
/// 64-bit timestamp.
pub proof fn lemma_frame_shape(line: Seq<char>, host_ms: int)
    requires
        i64::MIN <= host_ms <= i64::MAX,
        frame_of(line, host_ms) is Some,
    ensures
        frame_of(line, host_ms)->0.channels.len() == 5,
        forall|i: int|
            0 <= i < 5 ==> i32::MIN <= #[trigger] frame_of(line, host_ms)->0.channels[i]
                <= i32::MAX,
        i64::MIN <= frame_of(line, host_ms)->0.timestamp <= i64::MAX,
{
    let fields = split(trimmed(line), ',');
    if fields.len() == 5 {
        assert forall|i: int| 0 <= i < 5 implies i32::MIN <= #[trigger] frame_of(
            line,
            host_ms,
        )->0.channels[i] <= i32::MAX by {
            assert(channel_field(fields[i]) is Some);
        }
    } else {
        let tail = fields.skip(1);
        assert forall|i: int| 0 <= i < 5 implies i32::MIN <= #[trigger] frame_of(
            line,
            host_ms,
        )->0.channels[i] <= i32::MAX by {
            assert(channel_field(tail[i]) is Some);
        }
    }
}

/// Whatever five 32-bit readings are written as a frame, reading the frame
/// gives back exactly those readings, in order.
pub proof fn lemma_written_frame_reads_back(channels: Seq<int>, host_ms: int)
    requires
        channels.len() == 5,
        forall|i: int| 0 <= i < 5 ==> i32::MIN <= #[trigger] channels[i] <= i32::MAX,
    ensures
        !frame_text(channels).contains('\n'),
        frame_of(frame_text(channels), host_ms) == Some(
            SampleView { timestamp: host_ms, channels },
        ),
{
    let parts = Seq::new(5, |i: int| decimal_text(channels[i]));
    let line = frame_text(channels);
    assert forall|i: int| 0 <= i < parts.len() implies !(#[trigger] parts[i]).contains(',') by {
        lemma_decimal_text_is_plain(channels[i]);
    }
    lemma_split_joined(parts, ',');
    lemma_decimal_text_is_plain(channels[0]);
    lemma_decimal_text_is_plain(channels[4]);
    lemma_joined_ends(parts, ',');
    lemma_trimmed_identity(line);
    assert forall|i: int| 0 <= i < 5 implies channel_field(#[trigger] parts[i]) == Some(
        channels[i],
    ) by {
        lemma_decimal_round_trip(channels[i]);
    }
    lemma_five_integers_are_a_frame(line, host_ms);
    assert(Seq::new(5, |i: int| channel_field(parts[i])->0) =~= channels);
    assert forall|i: int| 0 <= i < parts.len() implies !(#[trigger] parts[i]).contains('\n') by {
        lemma_decimal_text_is_plain(channels[i]);
    }
    lemma_joined_lacks(parts, ',', '\n');
}

} // verus!
