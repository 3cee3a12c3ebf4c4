//! Dialogue events: reading the `Dialogue` records of an ASS file, line by
//! line, into captions with rewritten timestamps.
//!
//! A record is one line of comma-separated fields. The field at index 1 is
//! the start time, the field at index 2 the end time, and the fields from
//! index 9 on are the caption text, which may itself hold commas.
//!
//! A dialogue line that cannot be read as a record is an error, and the
//! extraction of a file stops at the first such line and reports it. What to
//! do then is left to the caller.
use vstd::prelude::*;
use vstd::string::*;
use crate::text::{chars_of, join, lemma_split_fields_free, matches_at, occurs_at,
    ranges_mark_fields, split, split_ranges};
use crate::timestamp::{centiseconds, digits_value, lemma_milliseconds_of_valid_field,
    normalize_timestamp, normalized, valid_time_field};

verus! {

/// One caption: when it appears, when it disappears, and what it says.
///
/// The two timestamps have the form `H:MM:SS,mmm`. Nothing asks that the end
/// lie after the start.
#[derive(Debug, PartialEq, Eq)]
pub struct DialogueEvent {
    pub start: String,
    pub end: String,
    pub text: String,
}

/// The mathematical value of a [`DialogueEvent`].
pub struct Caption {
    pub start: Seq<char>,
    pub end: Seq<char>,
    pub text: Seq<char>,
}

impl View for DialogueEvent {
    type V = Caption;

    open spec fn view(&self) -> Caption {
        Caption { start: self.start@, end: self.end@, text: self.text@ }
    }
}

impl Clone for DialogueEvent {
    fn clone(&self) -> (copy: Self)
        ensures
            copy@ == self@,
    {
        DialogueEvent {
            start: self.start.clone(),
            end: self.end.clone(),
            text: self.text.clone(),
        }
    }
}

/// Why a dialogue line is no record.
#[derive(Clone, Copy, Debug, PartialEq, Eq, Structural)]
pub enum LineError {
    /// The line has fewer than ten fields.
    MissingFields,
    /// The start time is no valid time field.
    MalformedStart,
    /// The end time is no valid time field.
    MalformedEnd,
}

/// Why the extraction of a file failed: the index of its first malformed
/// dialogue line, counted from 0 over all lines, and what is wrong with it.
#[derive(Clone, Copy, Debug, PartialEq, Eq, Structural)]
pub struct ExtractError {
    pub line: usize,
    pub kind: LineError,
}

/// The word that a dialogue line begins with.
pub open spec fn dialogue_tag() -> Seq<char> {
    "Dialogue"@
}

/// Whether `line` is a dialogue line: the tag stands at its very beginning.
pub open spec fn is_dialogue_line(line: Seq<char>) -> bool {
    occurs_at(line, 0, dialogue_tag())
}

/// What is wrong with the dialogue line `line`, if anything. The number of
/// fields is looked at first, then the start time, then the end time.
pub open spec fn line_error(line: Seq<char>) -> Option<LineError> {
    let fields = split(line, ',');
    if fields.len() < 10 {
        Some(LineError::MissingFields)
    } else if !valid_time_field(fields[1]) {
        Some(LineError::MalformedStart)
    } else if !valid_time_field(fields[2]) {
        Some(LineError::MalformedEnd)
    } else {
        None
    }
}

/// The caption that the well-formed dialogue line `line` holds. The text
/// fields are joined with one space each, so a comma in the text comes out
/// as a space.
pub open spec fn caption_of(line: Seq<char>) -> Caption {
    let fields = split(line, ',');
    Caption {
        start: normalized(fields[1]),
        end: normalized(fields[2]),
        text: join(fields.skip(9), seq![' ']),
    }
}

/// What reading one line gives: nothing for a line that is no dialogue line,
/// a caption for a well-formed dialogue line, an error for a malformed one.
pub open spec fn parse_line(line: Seq<char>) -> Result<Option<Caption>, LineError> {
    if !is_dialogue_line(line) {
        Ok(None)
    } else {
        match line_error(line) {
            Some(e) => Err(e),
            None => Ok(Some(caption_of(line))),
        }
    }
}

/// The text fields of a record, those from index 9 on, joined with one space
/// each. `ranges` says where the fields of `line` lie.
fn join_text_fields(line: &str, ranges: &Vec<(usize, usize)>) -> (text: String)
    requires
        ranges_mark_fields(ranges@, line@, ','),
        ranges@.len() >= 10,
    ensures
        text@ == join(split(line@, ',').skip(9), seq![' ']),
{
    let ghost fields = split(line@, ',');
    let mut text = String::from_str(line.substring_char(ranges[9].0, ranges[9].1));
    let mut k: usize = 10;
    proof {
        reveal_strlit(" ");
        assert(fields.subrange(9, 10) =~= seq![fields[9]]);
        assert(" "@ =~= seq![' ']);
    }
    while k < ranges.len()
        invariant
            10 <= k <= ranges@.len(),
            ranges_mark_fields(ranges@, line@, ','),
            fields == split(line@, ','),
            " "@ == seq![' '],
            text@ == join(fields.subrange(9, k as int), seq![' ']),
        decreases ranges.len() - k,
    {
        proof {
            assert(fields.subrange(9, k + 1).drop_last() == fields.subrange(9, k as int));
        }
        text.append(" ");
        text.append(line.substring_char(ranges[k].0, ranges[k].1));
        k += 1;
    }
    proof {
        assert(fields.subrange(9, k as int) == fields.skip(9));
    }
    text
}

/// Reads one line. A line that does not begin with the tag `Dialogue` gives
/// nothing; a dialogue line gives its caption, or says why it is no record.
pub fn parse_dialogue_line(line: &str) -> (res: Result<Option<DialogueEvent>, LineError>)
    ensures
        match res {
            Ok(Some(event)) => parse_line(line@) == Ok::<Option<Caption>, LineError>(
                Some(event@),
            ),
            Ok(None) => parse_line(line@) == Ok::<Option<Caption>, LineError>(None),
            Err(e) => parse_line(line@) == Err::<Option<Caption>, LineError>(e),
        },
{
    let chars = chars_of(line);
    let tag = chars_of("Dialogue");
    if !matches_at(&chars, 0, &tag) {
        return Ok(None);
    }
    let ranges = split_ranges(&chars, ',');
    if ranges.len() < 10 {
        return Err(LineError::MissingFields);
    }
    let start = match normalize_timestamp(line.substring_char(ranges[1].0, ranges[1].1)) {
        Some(start) => start,
        None => {
            return Err(LineError::MalformedStart);
        },
    };
    let end = match normalize_timestamp(line.substring_char(ranges[2].0, ranges[2].1)) {
        Some(end) => end,
        None => {
            return Err(LineError::MalformedEnd);
        },
    };
    let text = join_text_fields(line, &ranges);
    Ok(Some(DialogueEvent { start, end, text }))
}

/// The hundredths of a second that the time field at index `index` of
/// `line` carries.
pub open spec fn field_centiseconds(line: Seq<char>, index: int) -> nat {
    centiseconds(split(split(line, ',')[index], '.')[1]).unwrap()
}

/// In the caption of a dialogue line, each timestamp has exactly two parts
/// around its comma, and the second part denotes thousandths of a second:
/// ten times the hundredths of the time field it was made from, and so a
/// number from 0 to 990.
pub proof fn lemma_caption_milliseconds(line: Seq<char>)
    requires
        parse_line(line) is Ok,
        parse_line(line).unwrap() is Some,
    ensures
        ({
            let caption = parse_line(line).unwrap().unwrap();
            &&& split(caption.start, ',').len() == 2
            &&& digits_value(split(caption.start, ',')[1]) == 10 * field_centiseconds(line, 1)
            &&& 0 <= 10 * field_centiseconds(line, 1) <= 990
            &&& split(caption.end, ',').len() == 2
            &&& digits_value(split(caption.end, ',')[1]) == 10 * field_centiseconds(line, 2)
            &&& 0 <= 10 * field_centiseconds(line, 2) <= 990
        }),
{
    let fields = split(line, ',');
    lemma_split_fields_free(line, ',');
    lemma_milliseconds_of_valid_field(fields[1]);
    lemma_milliseconds_of_valid_field(fields[2]);
}

/// The captions of a sequence of events.
pub open spec fn captions(events: Seq<DialogueEvent>) -> Seq<Caption> {
    events.map_values(|event: DialogueEvent| event@)
}

/// The lines of a file as the extraction sees them: the text of each line
/// that could be read, nothing for one that could not.
pub open spec fn line_texts(lines: Seq<Option<String>>) -> Seq<Option<Seq<char>>> {
    lines.map_values(
        |line: Option<String>|
            match line {
                Some(text) => Some(text@),
                None => None,
            },
    )
}

/// Whether a line takes part in the extraction: it could be read and is a
/// dialogue line.
pub open spec fn is_dialogue(line: Option<Seq<char>>) -> bool {
    line matches Some(text) && is_dialogue_line(text)
}

/// What is wrong with a line, if anything. Only a dialogue line can be
/// malformed: a line that could not be read, and one that is no dialogue
/// line, are passed over.
pub open spec fn malformed(line: Option<Seq<char>>) -> Option<LineError> {
    match line {
        Some(text) => if is_dialogue_line(text) {
            line_error(text)
        } else {
            None
        },
        None => None,
    }
}

/// Whether no line of `lines` is malformed.
pub open spec fn all_well_formed(lines: Seq<Option<Seq<char>>>) -> bool {
    forall|i: int| 0 <= i < lines.len() ==> malformed(#[trigger] lines[i]) is None
}

/// The captions of the dialogue lines among `lines`, in the order of the
/// lines.
pub open spec fn extracted(lines: Seq<Option<Seq<char>>>) -> Seq<Caption>
    decreases lines.len(),
{
    if lines.len() == 0 {
        Seq::<Caption>::empty()
    } else if is_dialogue(lines.last()) {
        extracted(lines.drop_last()).push(caption_of(lines.last().unwrap()))
    } else {
        extracted(lines.drop_last())
    }
}

/// Reads the dialogue events of one file from its lines, in their order.
/// `None` stands for a line that could not be read as text; it is passed
/// over, as is every line that does not begin with the tag `Dialogue`.
///
/// The extraction succeeds exactly when no dialogue line is malformed.
/// Otherwise it fails on the first malformed line, whatever follows it.
pub fn get_ass_lines(lines: &Vec<Option<String>>) -> (res: Result<Vec<DialogueEvent>, ExtractError>)
    ensures
        match res {
            Ok(events) => {
                &&& all_well_formed(line_texts(lines@))
                &&& captions(events@) == extracted(line_texts(lines@))
            },
            Err(e) => {
                &&& e.line < lines@.len()
                &&& malformed(line_texts(lines@)[e.line as int]) == Some(e.kind)
                &&& all_well_formed(line_texts(lines@).take(e.line as int))
            },
        },
{
    let ghost texts = line_texts(lines@);
    let mut events: Vec<DialogueEvent> = Vec::new();
    let mut i: usize = 0;
    while i < lines.len()
        invariant
            i <= lines@.len(),
            texts == line_texts(lines@),
            all_well_formed(texts.take(i as int)),
            captions(events@) == extracted(texts.take(i as int)),
        decreases lines.len() - i,
    {
        proof {
            assert(texts.take(i + 1).drop_last() == texts.take(i as int));
            assert(texts.take(i + 1).last() == texts[i as int]);
        }
        let ghost before = events@;
        match &lines[i] {
            None => {},
            Some(line) => {
                match parse_dialogue_line(line.as_str()) {
                    Ok(None) => {},
                    Ok(Some(event)) => {
                        events.push(event);
                        proof {
                            assert(captions(events@) == captions(before).push(event@));
                        }
                    },
                    Err(kind) => {
                        return Err(ExtractError { line: i, kind });
                    },
                }
            },
        }
        i += 1;
    }
    proof {
        assert(texts.take(i as int) == texts);
    }
    Ok(events)
}

/// The dialogue lines among `lines`, in the order of the lines.
pub open spec fn dialogue_lines(lines: Seq<Option<Seq<char>>>) -> Seq<Option<Seq<char>>> {
    lines.filter(|line: Option<Seq<char>>| is_dialogue(line))
}

/// Extraction keeps the order of the lines: there are as many captions as
/// dialogue lines, and the caption at each index is that of the dialogue
/// line at the same index among the dialogue lines.
pub proof fn lemma_extraction_keeps_order(lines: Seq<Option<Seq<char>>>)
    ensures
        extracted(lines).len() == dialogue_lines(lines).len(),
        forall|i: int|
            0 <= i < extracted(lines).len() ==> {
                &&& is_dialogue(#[trigger] dialogue_lines(lines)[i])
                &&& extracted(lines)[i] == caption_of(dialogue_lines(lines)[i].unwrap())
            },
    decreases lines.len(),
{
    let pick = |line: Option<Seq<char>>| is_dialogue(line);
    reveal(Seq::filter);
    if lines.len() > 0 {
        lemma_extraction_keeps_order(lines.drop_last());
        assert(dialogue_lines(lines.drop_last()) == lines.drop_last().filter(pick));
    }
}

/// A line in which the tag stands somewhere, but not at the very beginning,
/// gives no caption and no error, and adds nothing to the captions of the
/// lines before it.
pub proof fn lemma_tag_inside_line_is_passed_over(
    before: Seq<Option<Seq<char>>>,
    line: Seq<char>,
    at: int,
)
    requires
        at > 0,
        occurs_at(line, at, dialogue_tag()),
        !occurs_at(line, 0, dialogue_tag()),
    ensures
        parse_line(line) == Ok::<Option<Caption>, LineError>(None),
        malformed(Some(line)) is None,
        extracted(before.push(Some(line))) == extracted(before),
{
    let lines = before.push(Some(line));
    assert(lines.drop_last() == before);
    assert(lines.last() == Some(line));
}

} // verus!
