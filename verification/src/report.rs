//! The plain-text report of a session, and how it is read back.
//!
//! A report is a text of two lines: the samples, listed in arrival order, and
//! their average. Texts are sequences of bytes. The numbers arrive already
//! formatted; forming the lines, writing them as one text and cutting a text
//! back into its lines is done here, so that what is read back is what was
//! written.

use vstd::prelude::*;

verus! {

/// The byte that ends a line.
pub const LINE_FEED: u8 = 0x0a;

/// The byte that may precede the end of a line and is then not part of it.
pub const CARRIAGE_RETURN: u8 = 0x0d;

/// The text `Data Points: [`, with which the line of the samples begins.
pub const SAMPLES_OPEN: [u8; 14] = [
    0x44, 0x61, 0x74, 0x61, 0x20, 0x50, 0x6f, 0x69, 0x6e, 0x74, 0x73, 0x3a, 0x20, 0x5b,
];

/// The text `, `, which stands between two samples.
pub const SEPARATOR: [u8; 2] = [0x2c, 0x20];

/// The text `]`, with which the line of the samples ends.
pub const SAMPLES_CLOSE: [u8; 1] = [0x5d];

/// The text `Average Price: `, with which the line of the average begins.
pub const AVERAGE_LABEL: [u8; 15] = [
    0x41, 0x76, 0x65, 0x72, 0x61, 0x67, 0x65, 0x20, 0x50, 0x72, 0x69, 0x63, 0x65, 0x3a, 0x20,
];

/// The text `none`, which stands for the average of no samples.
pub const NO_AVERAGE: [u8; 4] = [0x6e, 0x6f, 0x6e, 0x65];

/// The texts that a vector of byte vectors holds.
pub open spec fn texts(lines: Seq<Vec<u8>>) -> Seq<Seq<u8>> {
    lines.map_values(|line: Vec<u8>| line@)
}

/// The text that an optional byte vector holds.
pub open spec fn text_of(text: Option<Vec<u8>>) -> Option<Seq<u8>> {
    match text {
        Some(t) => Some(t@),
        None => None,
    }
}

/// The items one after the other, with a separator between each two.
pub open spec fn listed(items: Seq<Seq<u8>>) -> Seq<u8>
    decreases items.len(),
{
    if items.len() == 0 {
        Seq::empty()
    } else if items.len() == 1 {
        items[0]
    } else {
        listed(items.drop_last()) + SEPARATOR@ + items.last()
    }
}

/// The line that lists the samples.
pub open spec fn samples_line(samples: Seq<Seq<u8>>) -> Seq<u8> {
    SAMPLES_OPEN@ + listed(samples) + SAMPLES_CLOSE@
}

/// The line that gives the average, or says that there is none.
pub open spec fn average_line(average: Option<Seq<u8>>) -> Seq<u8> {
    match average {
        Some(text) => AVERAGE_LABEL@ + text,
        None => AVERAGE_LABEL@ + NO_AVERAGE@,
    }
}

/// The lines of the report on `samples` and their `average`.
pub open spec fn report(samples: Seq<Seq<u8>>, average: Option<Seq<u8>>) -> Seq<Seq<u8>> {
    seq![samples_line(samples), average_line(average)]
}

/// The lines written as one text: each line, first to last, followed by a
/// line feed.
pub open spec fn written(lines: Seq<Seq<u8>>) -> Seq<u8>
    decreases lines.len(),
{
    if lines.len() == 0 {
        Seq::empty()
    } else {
        lines.first() + seq![LINE_FEED] + written(lines.drop_first())
    }
}

/// Where the first line of `text` ends: the place of its first line feed, or
/// the length of the text if it has none.
pub open spec fn line_end(text: Seq<u8>) -> int
    decreases text.len(),
{
    if text.len() == 0 || text[0] == LINE_FEED {
        0
    } else {
        1 + line_end(text.drop_first())
    }
}

/// A line without the carriage return that it may end in.
pub open spec fn without_return(line: Seq<u8>) -> Seq<u8> {
    if line.len() > 0 && line.last() == CARRIAGE_RETURN {
        line.drop_last()
    } else {
        line
    }
}

/// The lines of a text. A line ends at a line feed, which is not part of it,
/// nor is a carriage return just before that line feed. What follows the
/// last line feed is a line too, unless it is empty.
pub open spec fn read_back(text: Seq<u8>) -> Seq<Seq<u8>>
    decreases text.len(),
{
    let end = line_end(text);
    if text.len() == 0 {
        Seq::empty()
    } else if 0 <= end < text.len() {
        seq![without_return(text.take(end))] + read_back(text.skip(end + 1))
    } else {
        seq![text]
    }
}

/// Whether a text has no line feed in it.
pub open spec fn no_line_feed(text: Seq<u8>) -> bool {
    forall|i: int| 0 <= i < text.len() ==> #[trigger] text[i] != LINE_FEED
}

/// Whether a text can be written as one line and read back unchanged: it has
/// no line feed in it and does not end in a carriage return.
pub open spec fn is_line(text: Seq<u8>) -> bool {
    no_line_feed(text) && without_return(text) == text
}

/// The first line of a text ends at `end` if there is no line feed before
/// `end`, and `end` is the place of one or the end of the text.
pub proof fn lemma_line_end_is(text: Seq<u8>, end: int)
    requires
        0 <= end <= text.len(),
        forall|i: int| 0 <= i < end ==> #[trigger] text[i] != LINE_FEED,
        end < text.len() ==> text[end] == LINE_FEED,
    ensures
        line_end(text) == end,
    decreases end,
{
    if end > 0 {
        let rest = text.drop_first();
        assert(text[0] != LINE_FEED);
        assert forall|i: int| 0 <= i < end - 1 implies #[trigger] rest[i] != LINE_FEED by {
            assert(rest[i] == text[i + 1]);
        }
        assert(end - 1 < rest.len() ==> rest[end - 1] == text[end]);
        lemma_line_end_is(rest, end - 1);
    }
}

/// Writing one more line appends that line and a line feed to the text.
pub proof fn lemma_written_push(lines: Seq<Seq<u8>>, line: Seq<u8>)
    ensures
        written(lines.push(line)) == written(lines) + line + seq![LINE_FEED],
    decreases lines.len(),
{
    let longer = lines.push(line);
    if lines.len() == 0 {
        assert(longer.first() == line);
        assert(longer.drop_first() == Seq::<Seq<u8>>::empty());
        assert(written(longer.drop_first()) == Seq::<u8>::empty());
        assert(written(lines) == Seq::<u8>::empty());
        assert(written(longer) == line + seq![LINE_FEED] + Seq::<u8>::empty());
        assert(written(longer) == written(lines) + line + seq![LINE_FEED]);
    } else {
        assert(longer.first() == lines.first());
        assert(longer.drop_first() == lines.drop_first().push(line));
        lemma_written_push(lines.drop_first(), line);
        assert(written(longer) == lines.first() + seq![LINE_FEED] + (written(lines.drop_first())
            + line + seq![LINE_FEED]));
        assert(written(lines) == lines.first() + seq![LINE_FEED] + written(lines.drop_first()));
        assert(written(longer) == written(lines) + line + seq![LINE_FEED]);
    }
}

/// What is written line by line is read back line by line, unchanged: the
/// same lines, in the same order, each with the same bytes. A line is any
/// text without a line feed that does not end in a carriage return.
pub proof fn lemma_read_back_what_was_written(lines: Seq<Seq<u8>>)
    requires
        forall|i: int| 0 <= i < lines.len() ==> is_line(#[trigger] lines[i]),
    ensures
        read_back(written(lines)) == lines,
    decreases lines.len(),
{
    if lines.len() == 0 {
        assert(written(lines).len() == 0);
        assert(read_back(written(lines)) == Seq::<Seq<u8>>::empty());
    } else {
        let first = lines.first();
        let rest = lines.drop_first();
        let text = written(lines);
        let end = first.len() as int;
        assert(is_line(lines[0]));
        assert forall|i: int| 0 <= i < rest.len() implies is_line(#[trigger] rest[i]) by {
            assert(rest[i] == lines[i + 1]);
        }
        lemma_read_back_what_was_written(rest);
        assert(text == first + seq![LINE_FEED] + written(rest));
        assert(text.len() == end + 1 + written(rest).len());
        assert(text[end] == LINE_FEED);
        assert forall|i: int| 0 <= i < end implies #[trigger] text[i] != LINE_FEED by {
            assert(text[i] == first[i]);
        }
        lemma_line_end_is(text, end);
        assert(text.take(end) == first);
        assert(without_return(first) == first);
        assert(text.skip(end + 1) == written(rest));
        assert(read_back(text) == seq![first] + read_back(written(rest)));
        assert(seq![first] + rest == lines);
    }
}

/// A list of texts without line feeds has no line feed.
pub proof fn lemma_listed_has_no_line_feed(items: Seq<Seq<u8>>)
    requires
        forall|i: int| 0 <= i < items.len() ==> no_line_feed(#[trigger] items[i]),
    ensures
        no_line_feed(listed(items)),
    decreases items.len(),
{
    if items.len() == 1 {
        assert(no_line_feed(items[0]));
    } else if items.len() > 1 {
        let earlier = items.drop_last();
        assert forall|i: int| 0 <= i < earlier.len() implies no_line_feed(#[trigger] earlier[i]) by {
            assert(earlier[i] == items[i]);
        }
        lemma_listed_has_no_line_feed(earlier);
        assert(no_line_feed(items[items.len() - 1]));
        assert(items.last() == items[items.len() - 1]);
        assert(no_line_feed(SEPARATOR@));
        assert(listed(items) == listed(earlier) + SEPARATOR@ + items.last());
    }
}

/// A report that is written and read back is the report: two lines, the
/// samples and the average, byte for byte. The formatted numbers are taken to
/// hold no line feed, and the average not to end in a carriage return.
pub proof fn lemma_report_reads_back(samples: Seq<Seq<u8>>, average: Option<Seq<u8>>)
    requires
        forall|i: int| 0 <= i < samples.len() ==> no_line_feed(#[trigger] samples[i]),
        average matches Some(text) ==> is_line(text),
    ensures
        read_back(written(report(samples, average))) == report(samples, average),
{
    let lines = report(samples, average);
    let first = samples_line(samples);
    let second = average_line(average);
    lemma_listed_has_no_line_feed(samples);
    assert(no_line_feed(SAMPLES_OPEN@) && no_line_feed(SAMPLES_CLOSE@));
    assert(no_line_feed(first));
    assert(first.last() == SAMPLES_CLOSE@[0]);
    assert(is_line(first));
    assert(no_line_feed(AVERAGE_LABEL@) && is_line(NO_AVERAGE@));
    assert(is_line(second)) by {
        match average {
            Some(text) => {
                assert(no_line_feed(second));
                if text.len() > 0 {
                    assert(second.last() == text.last());
                } else {
                    assert(second == AVERAGE_LABEL@);
                }
            },
            None => {
                assert(no_line_feed(second));
                assert(second.last() == NO_AVERAGE@[3]);
            },
        }
    }
    assert forall|i: int| 0 <= i < lines.len() implies is_line(#[trigger] lines[i]) by {
        assert(lines[0] == first && lines[1] == second);
    }
    lemma_read_back_what_was_written(lines);
}

/// Appends `text` to `out`.
fn append_text(out: &mut Vec<u8>, text: &[u8])
    ensures
        final(out)@ == old(out)@ + text@,
{
    let mut i: usize = 0;
    assert(text@.take(0) == Seq::<u8>::empty());
    while i < text.len()
        invariant
            i <= text.len(),
            out@ == old(out)@ + text@.take(i as int),
        decreases text.len() - i,
    {
        out.push(text[i]);
        assert(text@.take(i + 1) == text@.take(i as int).push(text@[i as int]));
        i = i + 1;
    }
    assert(text@.take(i as int) == text@);
}

/// Forms the two lines of the report from the formatted samples, in arrival
/// order, and the formatted average, if there is one.
pub fn report_lines(samples: &Vec<Vec<u8>>, average: &Option<Vec<u8>>) -> (lines: Vec<Vec<u8>>)
    ensures
        texts(lines@) == report(texts(samples@), text_of(*average)),
{
    let ghost items = texts(samples@);
    let mut first: Vec<u8> = Vec::new();
    append_text(&mut first, &SAMPLES_OPEN);
    let mut i: usize = 0;
    assert(listed(items.take(0)) == Seq::<u8>::empty());
    while i < samples.len()
        invariant
            i <= samples.len(),
            items == texts(samples@),
            first@ == SAMPLES_OPEN@ + listed(items.take(i as int)),
        decreases samples.len() - i,
    {
        if i > 0 {
            append_text(&mut first, &SEPARATOR);
        }
        append_text(&mut first, samples[i].as_slice());
        proof {
            let shown = items.take(i + 1);
            assert(shown.drop_last() == items.take(i as int));
            assert(shown.last() == samples@[i as int]@);
            if i == 0 {
                assert(listed(shown) == shown[0]);
            } else {
                assert(listed(shown) == listed(items.take(i as int)) + SEPARATOR@ + shown.last());
            }
            assert(first@ == SAMPLES_OPEN@ + listed(shown));
        }
        i = i + 1;
    }
    assert(items.take(i as int) == items);
    append_text(&mut first, &SAMPLES_CLOSE);
    let mut second: Vec<u8> = Vec::new();
    append_text(&mut second, &AVERAGE_LABEL);
    match average {
        Some(text) => append_text(&mut second, text.as_slice()),
        None => append_text(&mut second, &NO_AVERAGE),
    }
    assert(first@ == samples_line(items));
    assert(second@ == average_line(text_of(*average)));
    let mut lines: Vec<Vec<u8>> = Vec::new();
    lines.push(first);
    lines.push(second);
    assert(texts(lines@) == report(items, text_of(*average)));
    lines
}

/// Writes the lines as one text: each line, first to last, followed by a line
/// feed.
pub fn write_lines(lines: &Vec<Vec<u8>>) -> (text: Vec<u8>)
    ensures
        text@ == written(texts(lines@)),
{
    let ghost all = texts(lines@);
    let mut text: Vec<u8> = Vec::new();
    let mut i: usize = 0;
    assert(written(all.take(0)) == Seq::<u8>::empty());
    while i < lines.len()
        invariant
            i <= lines.len(),
            all == texts(lines@),
            text@ == written(all.take(i as int)),
        decreases lines.len() - i,
    {
        append_text(&mut text, lines[i].as_slice());
        text.push(LINE_FEED);
        proof {
            lemma_written_push(all.take(i as int), all[i as int]);
            assert(all.take(i as int).push(all[i as int]) == all.take(i + 1));
            assert(all[i as int] == lines@[i as int]@);
        }
        i = i + 1;
    }
    assert(all.take(i as int) == all);
    text
}

/// Cuts a text into its lines. A line ends at a line feed; the line feed, and
/// a carriage return just before it, are left out. What follows the last line
/// feed is a line too, unless it is empty.
pub fn read_lines(text: &[u8]) -> (lines: Vec<Vec<u8>>)
    ensures
        texts(lines@) == read_back(text@),
{
    let mut lines: Vec<Vec<u8>> = Vec::new();
    let mut start: usize = 0;
    assert(text@.skip(0) == text@);
    assert(texts(lines@) == Seq::<Seq<u8>>::empty());
    while start < text.len()
        invariant
            start <= text.len(),
            read_back(text@) == texts(lines@) + read_back(text@.skip(start as int)),
        decreases text.len() - start,
    {
        let ghost rest = text@.skip(start as int);
        let mut end: usize = start;
        while end < text.len() && text[end] != LINE_FEED
            invariant
                start <= end <= text.len(),
                forall|i: int| start <= i < end ==> #[trigger] text@[i] != LINE_FEED,
            decreases text.len() - end,
        {
            end = end + 1;
        }
        proof {
            assert forall|i: int| 0 <= i < end - start implies #[trigger] rest[i] != LINE_FEED by {
                assert(rest[i] == text@[start + i]);
            }
            assert(end < text.len() ==> rest[end - start] == text@[end as int]);
            lemma_line_end_is(rest, end - start);
        }
        let terminated = end < text.len();
        let stop: usize = if terminated && end > start && text[end - 1] == CARRIAGE_RETURN {
            end - 1
        } else {
            end
        };
        let mut line: Vec<u8> = Vec::new();
        let mut i: usize = start;
        assert(text@.subrange(start as int, start as int) == Seq::<u8>::empty());
        while i < stop
            invariant
                start <= i <= stop <= text.len(),
                line@ == text@.subrange(start as int, i as int),
            decreases stop - i,
        {
            line.push(text[i]);
            assert(text@.subrange(start as int, i + 1) == text@.subrange(
                start as int,
                i as int,
            ).push(text@[i as int]));
            i = i + 1;
        }
        proof {
            let whole = rest.take(end - start);
            assert(whole == text@.subrange(start as int, end as int));
            if terminated {
                assert(line@ == without_return(whole)) by {
                    if end > start {
                        assert(whole.last() == text@[end - 1]);
                    }
                    if stop < end {
                        assert(whole.drop_last() == text@.subrange(start as int, stop as int));
                    }
                }
                assert(rest.skip(end - start + 1) == text@.skip(end + 1));
                assert(read_back(rest) == seq![line@] + read_back(text@.skip(end + 1)));
            } else {
                assert(whole == rest);
                assert(line@ == rest);
                assert(read_back(rest) == seq![line@]);
                assert(text@.skip(end as int) == Seq::<u8>::empty());
                assert(read_back(text@.skip(end as int)) == Seq::<Seq<u8>>::empty());
            }
        }
        let ghost earlier = texts(lines@);
        let ghost cut = line@;
        lines.push(line);
        assert(texts(lines@) == earlier + seq![cut]);
        start = if terminated {
            end + 1
        } else {
            end
        };
    }
    assert(read_back(text@.skip(start as int)) == Seq::<Seq<u8>>::empty());
    lines
}

} // verus!
