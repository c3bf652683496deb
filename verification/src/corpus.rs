//! The payload corpus: request bodies read from a line-delimited source.

use vstd::prelude::*;

verus! {

/// The line feed byte, which ends a line.
pub const LINE_FEED: u8 = 10;

/// The carriage return byte, which is dropped where it stands directly
/// before a line feed.
pub const CARRIAGE_RETURN: u8 = 13;

/// Number of bytes in `text` before its first line feed; `text.len()` if it
/// holds none.
pub open spec fn line_length(text: Seq<u8>) -> nat
    decreases text.len(),
{
    if text.len() == 0 || text[0] == LINE_FEED {
        0
    } else {
        1 + line_length(text.skip(1))
    }
}

/// `line` without the carriage return at its end, if it has one.
pub open spec fn without_carriage_return(line: Seq<u8>) -> Seq<u8> {
    if line.len() > 0 && line.last() == CARRIAGE_RETURN {
        line.drop_last()
    } else {
        line
    }
}

/// The lines of `text`, in order.
///
/// A line ends at a line feed, or at a carriage return directly followed by
/// a line feed; neither is part of the line. What follows the last line feed
/// is a line of its own if it is not empty, and is kept whole. Empty text has
/// no lines.
pub open spec fn lines_of(text: Seq<u8>) -> Seq<Seq<u8>>
    decreases text.len(),
{
    if text.len() == 0 {
        Seq::empty()
    } else {
        let n = line_length(text) as int;
        if n >= text.len() {
            seq![text]
        } else {
            seq![without_carriage_return(text.take(n))] + lines_of(text.skip(n + 1))
        }
    }
}

/// Why a corpus could not be loaded.
#[derive(Clone, Copy, Debug, PartialEq, Eq, Structural)]
pub enum LoadError {
    /// The source could not be opened or read.
    SourceUnreadable,
    /// The source was read and holds no payload.
    SourceEmpty,
}

/// What loading `source` gives: `None` stands for a source that could not
/// be read, `Some` holds the bytes that were read.
pub open spec fn load_result(source: Option<Seq<u8>>) -> Result<Seq<Seq<u8>>, LoadError> {
    match source {
        None => Err(LoadError::SourceUnreadable),
        Some(text) => if lines_of(text).len() == 0 {
            Err(LoadError::SourceEmpty)
        } else {
            Ok(lines_of(text))
        },
    }
}

/// What reading a source gave, as `load` takes it, in mathematical terms.
pub open spec fn source_view(source: Option<&[u8]>) -> Option<Seq<u8>> {
    match source {
        Some(text) => Some(text@),
        None => None,
    }
}

/// What `load` handed back, in mathematical terms.
pub open spec fn loaded_view(loaded: Result<Corpus, LoadError>) -> Result<Seq<Seq<u8>>, LoadError> {
    match loaded {
        Ok(corpus) => Ok(corpus@),
        Err(error) => Err(error),
    }
}

/// The payloads held in `payloads`, each as its bytes.
pub open spec fn payload_views(payloads: Seq<Vec<u8>>) -> Seq<Seq<u8>> {
    Seq::new(payloads.len(), |i: int| payloads[i]@)
}

/// An ordered, never empty sequence of request bodies. It is built once and
/// offers no way to change it afterwards.
#[derive(Debug)]
pub struct Corpus {
    payloads: Vec<Vec<u8>>,
}

impl View for Corpus {
    type V = Seq<Seq<u8>>;

    closed spec fn view(&self) -> Seq<Seq<u8>> {
        payload_views(self.payloads@)
    }
}

/// The length of the first line of `text` is `n` where no line feed stands
/// before `n` and one stands at `n`, or the text ends there.
proof fn lemma_line_length(text: Seq<u8>, n: nat)
    requires
        n <= text.len(),
        forall|k: int| 0 <= k < n ==> text[k] != LINE_FEED,
        n == text.len() || text[n as int] == LINE_FEED,
    ensures
        line_length(text) == n,
    decreases n,
{
    if n > 0 {
        let rest = text.skip(1);
        lemma_line_length(rest, (n - 1) as nat);
    }
}

/// A copy of the bytes of `text` from `start` up to `end`.
fn copy_range(text: &[u8], start: usize, end: usize) -> (bytes: Vec<u8>)
    requires
        start <= end <= text@.len(),
    ensures
        bytes@ == text@.subrange(start as int, end as int),
{
    let mut bytes: Vec<u8> = Vec::new();
    let mut i: usize = start;
    while i < end
        invariant
            start <= i <= end <= text@.len(),
            bytes@ == text@.subrange(start as int, i as int),
        decreases end - i,
    {
        bytes.push(text[i]);
        i += 1;
    }
    bytes
}

/// Splits `text` into its lines.
pub fn split_lines(text: &[u8]) -> (lines: Vec<Vec<u8>>)
    ensures
        payload_views(lines@) == lines_of(text@),
{
    let mut lines: Vec<Vec<u8>> = Vec::new();
    let mut start: usize = 0;
    let mut i: usize = 0;
    proof {
        assert(text@.skip(0) == text@);
    }
    while i < text.len()
        invariant
            start <= i <= text@.len(),
            forall|k: int| start <= k < i ==> text@[k] != LINE_FEED,
            payload_views(lines@) + lines_of(text@.skip(start as int)) == lines_of(text@),
        decreases text@.len() - i,
    {
        if text[i] == LINE_FEED {
            let end: usize = if i > start && text[i - 1] == CARRIAGE_RETURN {
                i - 1
            } else {
                i
            };
            let line = copy_range(text, start, end);
            proof {
                let rest = text@.skip(start as int);
                let n = (i - start) as nat;
                lemma_line_length(rest, n);
                assert(rest.skip(n as int + 1) == text@.skip(i as int + 1));
                assert(line@ == without_carriage_return(rest.take(n as int)));
            }
            lines.push(line);
            start = i + 1;
        }
        i += 1;
    }
    if start < text.len() {
        let line = copy_range(text, start, text.len());
        proof {
            let rest = text@.skip(start as int);
            lemma_line_length(rest, rest.len());
        }
        lines.push(line);
    }
    lines
}

impl Corpus {
    #[verifier::type_invariant]
    spec fn holds_a_payload(self) -> bool {
        self.payloads@.len() > 0
    }

    /// Builds the corpus from what reading the source gave: `None` where it
    /// could not be read, else its bytes, one payload per line.
    pub fn load(source: Option<&[u8]>) -> (loaded: Result<Corpus, LoadError>)
        ensures
            loaded_view(loaded) == load_result(source_view(source)),
    {
        match source {
            None => Err(LoadError::SourceUnreadable),
            Some(text) => Corpus::from_payloads(split_lines(text)),
        }
    }

    /// Builds the corpus from payloads that are already at hand, in their
    /// order. Fails with `SourceEmpty` if and only if there is none.
    pub fn from_payloads(payloads: Vec<Vec<u8>>) -> (built: Result<Corpus, LoadError>)
        ensures
            match built {
                Ok(corpus) => payloads@.len() > 0 && corpus@ == payload_views(payloads@),
                Err(error) => payloads@.len() == 0 && error == LoadError::SourceEmpty,
            },
    {
        if payloads.len() == 0 {
            Err(LoadError::SourceEmpty)
        } else {
            Ok(Corpus { payloads })
        }
    }

    /// The number of payloads, which is never zero.
    pub fn len(&self) -> (n: usize)
        ensures
            n == self@.len(),
            n > 0,
    {
        proof {
            use_type_invariant(self);
        }
        self.payloads.len()
    }

    /// The payload that `position` falls on when the corpus is gone through
    /// again and again, with its index.
    pub fn wrapped(&self, position: u64) -> (found: (usize, &Vec<u8>))
        ensures
            found.0 == position as int % self@.len() as int,
            found.0 < self@.len(),
            found.1@ == self@[found.0 as int],
    {
        proof {
            use_type_invariant(self);
        }
        let index: usize = (position % (self.payloads.len() as u64)) as usize;
        (index, &self.payloads[index])
    }

    /// The payload at `index`, if the corpus has that many.
    pub fn get(&self, index: usize) -> (payload: Option<&Vec<u8>>)
        ensures
            match payload {
                Some(bytes) => index < self@.len() && bytes@ == self@[index as int],
                None => index >= self@.len(),
            },
    {
        if index < self.payloads.len() {
            Some(&self.payloads[index])
        } else {
            None
        }
    }
}

/// How a line of a source ends.
pub enum LineEnding {
    /// With a line feed.
    LineFeed,
    /// With a carriage return and a line feed.
    CarriageReturnLineFeed,
    /// With the end of the text, which only a last line that is not empty can do.
    EndOfText,
}

/// The bytes that `ending` stands for.
pub open spec fn ending_bytes(ending: LineEnding) -> Seq<u8> {
    match ending {
        LineEnding::LineFeed => seq![LINE_FEED],
        LineEnding::CarriageReturnLineFeed => seq![CARRIAGE_RETURN, LINE_FEED],
        LineEnding::EndOfText => Seq::empty(),
    }
}

/// The text of a source that holds `lines`, each followed by its ending.
pub open spec fn source_text(lines: Seq<Seq<u8>>, endings: Seq<LineEnding>) -> Seq<u8>
    decreases lines.len(),
{
    if lines.len() == 0 {
        Seq::empty()
    } else {
        lines[0] + ending_bytes(endings[0]) + source_text(lines.skip(1), endings.skip(1))
    }
}

/// Whether `lines` with `endings` describe a source unambiguously: no line
/// holds a line feed, a line that ends with a bare line feed does not itself
/// end with a carriage return, and only a last line that is not empty ends
/// with the text.
pub open spec fn well_formed_source(lines: Seq<Seq<u8>>, endings: Seq<LineEnding>) -> bool {
    &&& lines.len() == endings.len()
    &&& forall|i: int, k: int|
        0 <= i < lines.len() && 0 <= k < lines[i].len() ==> #[trigger] lines[i][k] != LINE_FEED
    &&& forall|i: int|
        0 <= i < lines.len() && #[trigger] endings[i] == LineEnding::LineFeed && lines[i].len() > 0
            ==> lines[i].last() != CARRIAGE_RETURN
    &&& forall|i: int|
        0 <= i < lines.len() && #[trigger] endings[i] == LineEnding::EndOfText ==> i == lines.len()
            - 1 && lines[i].len() > 0
}

/// How each line of `text` ends, in order.
pub open spec fn endings_of(text: Seq<u8>) -> Seq<LineEnding>
    decreases text.len(),
{
    if text.len() == 0 {
        Seq::empty()
    } else {
        let n = line_length(text) as int;
        if n >= text.len() {
            seq![LineEnding::EndOfText]
        } else if n > 0 && text[n - 1] == CARRIAGE_RETURN {
            seq![LineEnding::CarriageReturnLineFeed] + endings_of(text.skip(n + 1))
        } else {
            seq![LineEnding::LineFeed] + endings_of(text.skip(n + 1))
        }
    }
}

/// Text has no lines if and only if it is empty.
pub proof fn lemma_no_lines_iff_empty(text: Seq<u8>)
    ensures
        lines_of(text).len() == 0 <==> text.len() == 0,
{
}

/// Splitting the text of a well-formed source gives back its lines: as many
/// as the source holds, each unchanged, in the order of the source.
pub proof fn lemma_lines_of_source_text(lines: Seq<Seq<u8>>, endings: Seq<LineEnding>)
    requires
        well_formed_source(lines, endings),
    ensures
        lines_of(source_text(lines, endings)) == lines,
    decreases lines.len(),
{
    if lines.len() > 0 {
        let head = lines[0];
        let text = source_text(lines, endings);
        let rest_lines = lines.skip(1);
        let rest_endings = endings.skip(1);
        let rest_text = source_text(rest_lines, rest_endings);
        lemma_lines_of_source_text(rest_lines, rest_endings);
        match endings[0] {
            LineEnding::LineFeed => {
                lemma_line_length(text, head.len());
                assert(text.take(head.len() as int) == head);
                assert(text.skip(head.len() as int + 1) == rest_text);
            },
            LineEnding::CarriageReturnLineFeed => {
                let n = head.len() + 1;
                lemma_line_length(text, n);
                assert(text.take(n as int) == head.push(CARRIAGE_RETURN));
                assert(head.push(CARRIAGE_RETURN).drop_last() == head);
                assert(text.skip(n as int + 1) == rest_text);
            },
            LineEnding::EndOfText => {
                lemma_line_length(text, text.len());
            },
        }
    }
}

/// The first line of `text` holds no line feed, and ends at one or with the
/// text.
proof fn lemma_line_length_bounds(text: Seq<u8>)
    ensures
        line_length(text) <= text.len(),
        forall|k: int| 0 <= k < line_length(text) ==> text[k] != LINE_FEED,
        line_length(text) < text.len() ==> text[line_length(text) as int] == LINE_FEED,
    decreases text.len(),
{
    if text.len() > 0 && text[0] != LINE_FEED {
        let rest = text.skip(1);
        lemma_line_length_bounds(rest);
        assert forall|k: int| 0 <= k < line_length(text) implies text[k] != LINE_FEED by {
            if k > 0 {
                assert(text[k] == rest[k - 1]);
            }
        }
    }
}

/// Every text is the text of a well-formed source: that of its lines, each
/// with its ending.
pub proof fn lemma_text_is_a_well_formed_source(text: Seq<u8>)
    ensures
        well_formed_source(lines_of(text), endings_of(text)),
        source_text(lines_of(text), endings_of(text)) == text,
    decreases text.len(),
{
    if text.len() > 0 {
        lemma_line_length_bounds(text);
        let n = line_length(text) as int;
        let lines = lines_of(text);
        let endings = endings_of(text);
        if n >= text.len() {
            assert(source_text(lines.skip(1), endings.skip(1)) == Seq::<u8>::empty());
        } else {
            let rest = text.skip(n + 1);
            lemma_text_is_a_well_formed_source(rest);
            assert(lines.skip(1) == lines_of(rest));
            assert(endings.skip(1) == endings_of(rest));
        }
    }
}

/// Loading a well-formed source that holds at least one line succeeds, and
/// the corpus holds exactly the lines of the source, in its order.
pub proof fn lemma_load_yields_source_lines(lines: Seq<Seq<u8>>, endings: Seq<LineEnding>)
    requires
        well_formed_source(lines, endings),
        lines.len() > 0,
    ensures
        load_result(Some(source_text(lines, endings))) == Ok::<Seq<Seq<u8>>, LoadError>(lines),
{
    lemma_lines_of_source_text(lines, endings);
}

/// Loading fails with `SourceEmpty` exactly on a source that was read and
/// holds no byte, and with `SourceUnreadable` exactly on one that could not
/// be read.
pub proof fn lemma_load_failures(source: Option<Seq<u8>>)
    ensures
        load_result(source) == Err::<Seq<Seq<u8>>, LoadError>(LoadError::SourceEmpty) <==> source
            == Some(Seq::<u8>::empty()),
        load_result(source) == Err::<Seq<Seq<u8>>, LoadError>(LoadError::SourceUnreadable)
            <==> source is None,
{
    if let Some(text) = source {
        lemma_no_lines_iff_empty(text);
        if text.len() == 0 {
            assert(text == Seq::<u8>::empty());
        }
    }
}

} // verus!
