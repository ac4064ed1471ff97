//! The recorder: turns a captured buffer of samples and a calibration into
//! the rows of a session record.

use vstd::prelude::*;
use crate::decimal::{decimal_digits, decimal_string, decimal_text, digit_char, lemma_decimal_text_is_plain,
    lemma_digit_char, push_unsigned};
use crate::normalize::{lemma_normalized_in_unit_interval, normalize, normalized_milli};
use crate::sample::{ints, sample_views, Calibration, RawSample, SampleView};
use crate::text::{join, joined, lemma_split_joined, lemma_texts_push, split, texts};

verus! {

/// Why a recording was not committed.
#[derive(Debug)]
pub enum CommitError {
    /// There are no samples, or a calibration sequence does not cover every
    /// channel.
    InvalidInput,
    /// The record could not be stored.
    Storage { reason: String },
}

/// The text that describes a commit error to the user.
pub open spec fn commit_error_text(error: CommitError) -> Seq<char> {
    match error {
        CommitError::InvalidInput =>
            "Invalid input: no samples, or a calibration sequence with fewer than five entries"@,
        CommitError::Storage { reason } => reason@,
    }
}

/// A session record ready to be stored.
#[derive(Debug)]
pub struct SessionRecord {
    /// The name of the file the record goes to.
    pub file_name: String,
    /// The header followed by one row per sample, without line terminators.
    pub lines: Vec<String>,
}

/// The header row of every record.
pub open spec fn header_text() -> Seq<char> {
    "timestamp_ms,user_id,session_id,class_label,ch0_raw,ch1_raw,ch2_raw,ch3_raw,ch4_raw,ch0_norm,ch1_norm,ch2_norm,ch3_norm,ch4_norm,baseline_ch0,baseline_ch1,baseline_ch2,baseline_ch3,baseline_ch4,maxbend_ch0,maxbend_ch1,maxbend_ch2,maxbend_ch3,maxbend_ch4,glove_fit,sensor_map_ref,notes"@
}

/// The fit annotation written into every row.
pub open spec fn glove_fit_text() -> Seq<char> {
    "normal-fit"@
}

/// The channel-to-finger map written into every row.
pub open spec fn sensor_map_text() -> Seq<char> {
    "CH0=thumb|CH1=index|CH2=middle|CH3=ring|CH4=pinky"@
}

/// A value in thousandths written with three decimals, for values below ten.
pub open spec fn milli_text(milli: nat) -> Seq<char> {
    seq![
        digit_char((milli / 1000) as int),
        '.',
        digit_char((milli / 100 % 10) as int),
        digit_char((milli / 10 % 10) as int),
        digit_char((milli % 10) as int),
    ]
}

/// The decimal texts of the first five of `values`.
pub open spec fn five_decimals(values: Seq<int>) -> Seq<Seq<char>> {
    Seq::new(5, |i: int| decimal_text(values[i]))
}

/// The normalised channels of a sample, each written with three decimals.
pub open spec fn five_normalized(channels: Seq<int>, baseline: Seq<int>, max_bend: Seq<int>)
    -> Seq<Seq<char>> {
    Seq::new(5, |i: int| milli_text(normalized_milli(channels[i], baseline[i], max_bend[i])))
}

/// The fields of the row of one sample, in column order: timestamp,
/// identifiers and label, the raw channels, the normalised channels, the
/// calibration used, and the fixed annotations (the last of which is empty).
pub open spec fn row_fields(
    sample: SampleView,
    user_id: Seq<char>,
    session_id: Seq<char>,
    gesture: Seq<char>,
    baseline: Seq<int>,
    max_bend: Seq<int>,
) -> Seq<Seq<char>> {
    seq![decimal_text(sample.timestamp), user_id, session_id, gesture] + five_decimals(
        sample.channels,
    ) + five_normalized(sample.channels, baseline, max_bend) + five_decimals(baseline)
        + five_decimals(max_bend) + seq![glove_fit_text(), sensor_map_text(), Seq::empty()]
}

/// The row of one sample: its fields separated by commas.
pub open spec fn row_text(
    sample: SampleView,
    user_id: Seq<char>,
    session_id: Seq<char>,
    gesture: Seq<char>,
    baseline: Seq<int>,
    max_bend: Seq<int>,
) -> Seq<char> {
    joined(row_fields(sample, user_id, session_id, gesture, baseline, max_bend), ',')
}

/// The name of the file a record goes to.
pub open spec fn record_name(
    user_id: Seq<char>,
    session_id: Seq<char>,
    gesture: Seq<char>,
    unix_seconds: nat,
) -> Seq<char> {
    user_id + seq!['_'] + session_id + seq!['_'] + gesture + seq!['_'] + decimal_digits(
        unix_seconds,
    ) + ".csv"@
}

/// The lines of a record: the header, then the row of each sample in order.
pub open spec fn record_lines(
    samples: Seq<SampleView>,
    user_id: Seq<char>,
    session_id: Seq<char>,
    gesture: Seq<char>,
    baseline: Seq<int>,
    max_bend: Seq<int>,
) -> Seq<Seq<char>> {
    seq![header_text()] + Seq::new(
        samples.len(),
        |i: int| row_text(samples[i], user_id, session_id, gesture, baseline, max_bend),
    )
}

impl CommitError {
    /// The text that describes this error to the user.
    pub fn message(&self) -> (text: String)
        ensures
            text@ == commit_error_text(*self),
    {
        match self {
            CommitError::InvalidInput => String::from_str(
                "Invalid input: no samples, or a calibration sequence with fewer than five entries",
            ),
            CommitError::Storage { reason } => reason.clone(),
        }
    }
}

/// Writes a value in thousandths with three decimals.
fn milli_string(milli: u16) -> (text: String)
    requires
        milli < 10000,
    ensures
        text@ == milli_text(milli as nat),
{
    let mut text = String::new();
    text.push(((milli / 1000) as u8 + 48) as char);
    text.push('.');
    text.push(((milli / 100 % 10) as u8 + 48) as char);
    text.push(((milli / 10 % 10) as u8 + 48) as char);
    text.push(((milli % 10) as u8 + 48) as char);
    assert(text@ =~= milli_text(milli as nat));
    text
}

/// The name of the file that holds the record of a session: user, session
/// and gesture joined by underscores, then the time of the commit in whole
/// seconds since the epoch.
pub fn record_file_name(user_id: &str, session_id: &str, gesture: &str, unix_seconds: u64) -> (name:
    String)
    ensures
        name@ == record_name(user_id@, session_id@, gesture@, unix_seconds as nat),
{
    let mut name = String::from_str(user_id);
    name.push('_');
    name.append(session_id);
    name.push('_');
    name.append(gesture);
    name.push('_');
    push_unsigned(&mut name, unix_seconds);
    name.append(".csv");
    assert(name@ =~= record_name(user_id@, session_id@, gesture@, unix_seconds as nat));
    name
}

/// Appends the decimal texts of the first five of `values` to `fields`.
fn push_five_decimals(fields: &mut Vec<String>, values: &[i32])
    requires
        values@.len() >= 5,
    ensures
        texts(final(fields)@) == texts(old(fields)@) + five_decimals(ints(values@)),
{
    let ghost wanted = five_decimals(ints(values@));
    let mut i: usize = 0;
    assert(texts(fields@) + wanted.take(0) =~= texts(fields@));
    while i < 5
        invariant
            i <= 5,
            values@.len() >= 5,
            wanted == five_decimals(ints(values@)),
            texts(fields@) == texts(old(fields)@) + wanted.take(i as int),
        decreases 5 - i,
    {
        let text = decimal_string(values[i] as i64);
        proof {
            lemma_texts_push(fields@, text);
            assert(wanted.take(i + 1) =~= wanted.take(i as int).push(text@));
            assert((texts(old(fields)@) + wanted.take(i as int)).push(text@) =~= texts(
                old(fields)@,
            ) + wanted.take(i + 1));
        }
        fields.push(text);
        i = i + 1;
    }
    assert(wanted.take(5) =~= wanted);
}

/// Writes the row of one sample.
fn render_row(
    sample: &RawSample,
    user_id: &str,
    session_id: &str,
    gesture: &str,
    calibration: &Calibration,
) -> (row: String)
    requires
        calibration.complete(),
    ensures
        row@ == row_text(
            sample@,
            user_id@,
            session_id@,
            gesture@,
            calibration@.baseline,
            calibration@.max_bend,
        ),
{
    let ghost baseline = calibration@.baseline;
    let ghost max_bend = calibration@.max_bend;
    let mut fields: Vec<String> = Vec::new();
    fields.push(decimal_string(sample.timestamp));
    fields.push(String::from_str(user_id));
    fields.push(String::from_str(session_id));
    fields.push(String::from_str(gesture));
    let ghost lead = seq![decimal_text(sample@.timestamp), user_id@, session_id@, gesture@];
    assert(texts(fields@) =~= lead);
    push_five_decimals(&mut fields, sample.channels.as_slice());
    assert(five_decimals(ints(sample.channels@)) =~= five_decimals(sample@.channels));
    let ghost raw = lead + five_decimals(sample@.channels);
    let ghost wanted = five_normalized(sample@.channels, baseline, max_bend);
    let mut i: usize = 0;
    assert(raw + wanted.take(0) =~= raw);
    while i < 5
        invariant
            i <= 5,
            calibration.complete(),
            baseline == calibration@.baseline,
            max_bend == calibration@.max_bend,
            wanted == five_normalized(sample@.channels, baseline, max_bend),
            texts(fields@) == raw + wanted.take(i as int),
        decreases 5 - i,
    {
        let milli = normalize(sample.channels[i], calibration.baseline[i], calibration.max_bend[i]);
        let text = milli_string(milli);
        proof {
            lemma_texts_push(fields@, text);
            assert(wanted.take(i + 1) =~= wanted.take(i as int).push(text@));
            assert((raw + wanted.take(i as int)).push(text@) =~= raw + wanted.take(i + 1));
        }
        fields.push(text);
        i = i + 1;
    }
    assert(wanted.take(5) =~= wanted);
    push_five_decimals(&mut fields, calibration.baseline.as_slice());
    push_five_decimals(&mut fields, calibration.max_bend.as_slice());
    assert(five_decimals(calibration@.baseline) == five_decimals(baseline));
    let ghost body = raw + wanted + five_decimals(baseline) + five_decimals(max_bend);
    assert(texts(fields@) == body);
    let fit = String::from_str("normal-fit");
    let map = String::from_str("CH0=thumb|CH1=index|CH2=middle|CH3=ring|CH4=pinky");
    let notes = String::new();
    proof {
        lemma_texts_push(fields@, fit);
        lemma_texts_push(fields@.push(fit), map);
        lemma_texts_push(fields@.push(fit).push(map), notes);
        assert(body.push(fit@).push(map@).push(notes@) =~= body + seq![
            glove_fit_text(),
            sensor_map_text(),
            Seq::empty(),
        ]);
    }
    fields.push(fit);
    fields.push(map);
    fields.push(notes);
    join(&fields, ',')
}

/// Commits a captured buffer: validates it, normalises every sample against
/// the calibration and lays out the record.
///
/// Fails with [`CommitError::InvalidInput`] exactly when there are no samples
/// or a calibration sequence has fewer than five entries. Otherwise the
/// record is named after the session and the time of the commit, and holds
/// the header followed by one row per sample, in order. A degenerate
/// calibration is no reason to fail.
pub fn commit(
    samples: &[RawSample],
    gesture: &str,
    user_id: &str,
    session_id: &str,
    calibration: &Calibration,
    unix_seconds: u64,
) -> (result: Result<SessionRecord, CommitError>)
    ensures
        result is Ok <==> samples@.len() > 0 && calibration.complete(),
        result matches Err(error) ==> error is InvalidInput,
        result matches Ok(record) ==> {
            &&& record.file_name@ == record_name(
                user_id@,
                session_id@,
                gesture@,
                unix_seconds as nat,
            )
            &&& texts(record.lines@) == record_lines(
                sample_views(samples@),
                user_id@,
                session_id@,
                gesture@,
                calibration@.baseline,
                calibration@.max_bend,
            )
        },
{
    if samples.len() == 0 || !calibration.is_complete() {
        return Err(CommitError::InvalidInput);
    }
    let file_name = record_file_name(user_id, session_id, gesture, unix_seconds);
    let mut lines: Vec<String> = Vec::new();
    lines.push(
        String::from_str(
            "timestamp_ms,user_id,session_id,class_label,ch0_raw,ch1_raw,ch2_raw,ch3_raw,ch4_raw,ch0_norm,ch1_norm,ch2_norm,ch3_norm,ch4_norm,baseline_ch0,baseline_ch1,baseline_ch2,baseline_ch3,baseline_ch4,maxbend_ch0,maxbend_ch1,maxbend_ch2,maxbend_ch3,maxbend_ch4,glove_fit,sensor_map_ref,notes",
        ),
    );
    let ghost rows = Seq::new(
        samples@.len(),
        |k: int|
            row_text(
                samples@[k]@,
                user_id@,
                session_id@,
                gesture@,
                calibration@.baseline,
                calibration@.max_bend,
            ),
    );
    assert(texts(lines@) =~= seq![header_text()] + rows.take(0));
    let mut i: usize = 0;
    while i < samples.len()
        invariant
            i <= samples.len(),
            calibration.complete(),
            rows.len() == samples@.len(),
            forall|k: int|
                0 <= k < rows.len() ==> #[trigger] rows[k] == row_text(
                    samples@[k]@,
                    user_id@,
                    session_id@,
                    gesture@,
                    calibration@.baseline,
                    calibration@.max_bend,
                ),
            texts(lines@) == seq![header_text()] + rows.take(i as int),
        decreases samples.len() - i,
    {
        let row = render_row(&samples[i], user_id, session_id, gesture, calibration);
        proof {
            lemma_texts_push(lines@, row);
            assert(rows.take(i + 1) =~= rows.take(i as int).push(row@));
            assert((seq![header_text()] + rows.take(i as int)).push(row@) =~= seq![header_text()]
                + rows.take(i + 1));
        }
        lines.push(row);
        i = i + 1;
    }
    proof {
        assert(rows.take(i as int) =~= rows);
        assert(rows =~= Seq::new(
            sample_views(samples@).len(),
            |k: int|
                row_text(
                    sample_views(samples@)[k],
                    user_id@,
                    session_id@,
                    gesture@,
                    calibration@.baseline,
                    calibration@.max_bend,
                ),
        ));
    }
    Ok(SessionRecord { file_name, lines })
}

/// Concludes a commit once the attempt to store the record is over: the
/// location of the record when it was stored, a storage error with the
/// system's reason when it was not.
pub fn conclude(location: String, stored: Result<(), String>) -> (result: Result<
    String,
    CommitError,
>)
    ensures
        match stored {
            Ok(()) => result == Ok::<String, CommitError>(location),
            Err(reason) => result == Err::<String, CommitError>(CommitError::Storage { reason }),
        },
{
    match stored {
        Ok(()) => Ok(location),
        Err(reason) => Err(CommitError::Storage { reason }),
    }
}

/// A record has one line more than there are samples: the header comes
/// first, and the row of each sample follows in the order of the buffer.
pub proof fn lemma_record_shape(
    samples: Seq<SampleView>,
    user_id: Seq<char>,
    session_id: Seq<char>,
    gesture: Seq<char>,
    baseline: Seq<int>,
    max_bend: Seq<int>,
)
    ensures
        record_lines(samples, user_id, session_id, gesture, baseline, max_bend).len()
            == samples.len() + 1,
        record_lines(samples, user_id, session_id, gesture, baseline, max_bend)[0]
            == header_text(),
        forall|i: int|
            0 <= i < samples.len() ==> #[trigger] record_lines(
                samples,
                user_id,
                session_id,
                gesture,
                baseline,
                max_bend,
            )[i + 1] == row_text(samples[i], user_id, session_id, gesture, baseline, max_bend),
{
}

/// A row has twenty-seven fields: timestamp, three identifiers, five raw
/// readings, five normalised readings, ten calibration constants and three
/// annotations.
pub proof fn lemma_row_has_all_columns(
    sample: SampleView,
    user_id: Seq<char>,
    session_id: Seq<char>,
    gesture: Seq<char>,
    baseline: Seq<int>,
    max_bend: Seq<int>,
)
    ensures
        ({
            let fields = row_fields(sample, user_id, session_id, gesture, baseline, max_bend);
            &&& fields.len() == 27
            &&& fields.subrange(0, 4) == seq![
                decimal_text(sample.timestamp),
                user_id,
                session_id,
                gesture,
            ]
            &&& fields.subrange(4, 9) == five_decimals(sample.channels)
            &&& fields.subrange(9, 14) == five_normalized(sample.channels, baseline, max_bend)
            &&& fields.subrange(14, 19) == five_decimals(baseline)
            &&& fields.subrange(19, 24) == five_decimals(max_bend)
            &&& fields.subrange(24, 27) == seq![
                glove_fit_text(),
                sensor_map_text(),
                Seq::<char>::empty(),
            ]
        }),
{
}

/// Zero and one are written `0.000` and `1.000`.
pub proof fn lemma_milli_text_ends()
    ensures
        milli_text(0) == seq!['0', '.', '0', '0', '0'],
        milli_text(1000) == seq!['1', '.', '0', '0', '0'],
{
    assert(digit_char(0) == '0');
    assert(digit_char(1) == '1');
    assert(milli_text(0) =~= seq!['0', '.', '0', '0', '0']);
    assert(milli_text(1000) =~= seq!['1', '.', '0', '0', '0']);
}

/// A channel whose calibration is degenerate is recorded as `0.000`,
/// whatever was read on it.
pub proof fn lemma_degenerate_channel_records_zero(
    channels: Seq<int>,
    baseline: Seq<int>,
    max_bend: Seq<int>,
    i: int,
)
    requires
        0 <= i < 5,
        max_bend[i] <= baseline[i],
    ensures
        five_normalized(channels, baseline, max_bend)[i] == seq!['0', '.', '0', '0', '0'],
{
    lemma_milli_text_ends();
}

/// A value of at most one, written with three decimals, holds no comma.
pub proof fn lemma_milli_text_is_plain(milli: nat)
    requires
        milli <= 1000,
    ensures
        !milli_text(milli).contains(','),
{
    lemma_digit_char((milli / 1000) as int);
    lemma_digit_char((milli / 100 % 10) as int);
    lemma_digit_char((milli / 10 % 10) as int);
    lemma_digit_char((milli % 10) as int);
}

/// The fixed annotations hold no comma.
pub proof fn lemma_annotations_are_plain()
    ensures
        !glove_fit_text().contains(','),
        !sensor_map_text().contains(','),
{
    reveal_strlit("normal-fit");
    reveal_strlit("CH0=thumb|CH1=index|CH2=middle|CH3=ring|CH4=pinky");
}

/// A row can be taken apart again: as long as the identifiers and the label
/// hold no comma, splitting the row on commas gives back its fields.
pub proof fn lemma_row_splits_into_fields(
    sample: SampleView,
    user_id: Seq<char>,
    session_id: Seq<char>,
    gesture: Seq<char>,
    baseline: Seq<int>,
    max_bend: Seq<int>,
)
    requires
        !user_id.contains(','),
        !session_id.contains(','),
        !gesture.contains(','),
    ensures
        split(row_text(sample, user_id, session_id, gesture, baseline, max_bend), ',')
            == row_fields(sample, user_id, session_id, gesture, baseline, max_bend),
{
    let fields = row_fields(sample, user_id, session_id, gesture, baseline, max_bend);
    lemma_annotations_are_plain();
    assert forall|i: int| 0 <= i < fields.len() implies !(#[trigger] fields[i]).contains(',') by {
        if i == 0 {
            lemma_decimal_text_is_plain(sample.timestamp);
        } else if 4 <= i < 9 {
            lemma_decimal_text_is_plain(sample.channels[i - 4]);
        } else if 9 <= i < 14 {
            let k = i - 9;
            lemma_normalized_in_unit_interval(sample.channels[k], baseline[k], max_bend[k]);
            lemma_milli_text_is_plain(normalized_milli(sample.channels[k], baseline[k], max_bend[k]));
        } else if 14 <= i < 19 {
            lemma_decimal_text_is_plain(baseline[i - 14]);
        } else if 19 <= i < 24 {
            lemma_decimal_text_is_plain(max_bend[i - 19]);
        }
    }
    lemma_split_joined(fields, ',');
}

} // verus!
