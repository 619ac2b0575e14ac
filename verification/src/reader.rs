//! Assembling records from the lines of the registry, one line at a time.

use vstd::prelude::*;
use crate::fields::{
    delimiter, lemma_split_joined, split_field, texts, well_formed, FieldMap, RegistryError,
};
use crate::matcher::{record_output, report_record, separator};
use crate::text::{chars_of, contains_seq, starts_with, starts_with_seq};

verus! {

/// What a line of the registry is, by how it begins.
#[derive(Clone, Copy, Debug, PartialEq, Eq, Structural)]
pub enum LineKind {
    /// The line that dates the whole document.
    DocumentDate,
    /// The line that ends a record.
    Separator,
    /// A line that goes on with the value of the line before it.
    Continuation,
    /// A new field of the current record.
    Field,
}

/// The kind of a line. The marks are tried in this order: the document
/// date, the separator, the two spaces of a continuation.
pub open spec fn line_kind(line: Seq<char>) -> LineKind {
    if starts_with_seq(line, "File-Date:"@) {
        LineKind::DocumentDate
    } else if starts_with_seq(line, "%%"@) {
        LineKind::Separator
    } else if starts_with_seq(line, "  "@) {
        LineKind::Continuation
    } else {
        LineKind::Field
    }
}

/// Tells the kind of a line.
pub fn classify_line(line: &str) -> (r: LineKind)
    ensures
        r == line_kind(line@),
{
    if starts_with(line, "File-Date:") {
        LineKind::DocumentDate
    } else if starts_with(line, "%%") {
        LineKind::Separator
    } else if starts_with(line, "  ") {
        LineKind::Continuation
    } else {
        LineKind::Field
    }
}

/// The record in progress after a continuation line: the last line has
/// the continuation joined on, less the first of its leading spaces.
pub open spec fn extended(buffer: Seq<Seq<char>>, line: Seq<char>) -> Seq<Seq<char>> {
    buffer.drop_last().push(buffer.last() + line.skip(1))
}

/// One line read: the record in progress after it and the lines that it
/// gives to the output, or the reason why the line cannot be taken.
pub open spec fn step(
    buffer: Seq<Seq<char>>,
    line: Seq<char>,
    filter: Map<Seq<char>, Seq<char>>,
    color: bool,
) -> Result<(Seq<Seq<char>>, Seq<Seq<char>>), RegistryError> {
    match line_kind(line) {
        LineKind::DocumentDate => Ok((buffer, seq![line])),
        LineKind::Separator => if well_formed(buffer) {
            Ok((Seq::empty(), record_output(buffer, filter, color)))
        } else {
            Err(RegistryError::MalformedLine)
        },
        LineKind::Continuation => if buffer.len() == 0 {
            Err(RegistryError::OrphanContinuation)
        } else {
            Ok((extended(buffer, line), Seq::empty()))
        },
        LineKind::Field => Ok((buffer.push(line), Seq::empty())),
    }
}

/// The end of input: a record still in progress is evaluated like any
/// other; where none is, nothing is.
pub open spec fn flush(
    buffer: Seq<Seq<char>>,
    filter: Map<Seq<char>, Seq<char>>,
    color: bool,
) -> Result<Seq<Seq<char>>, RegistryError> {
    if buffer.len() == 0 {
        Ok(Seq::empty())
    } else if well_formed(buffer) {
        Ok(record_output(buffer, filter, color))
    } else {
        Err(RegistryError::MalformedLine)
    }
}

/// The record in progress and the output after a run of lines, read from
/// the first to the last, or the first error on the way.
pub open spec fn scan_prefix(
    lines: Seq<Seq<char>>,
    filter: Map<Seq<char>, Seq<char>>,
    color: bool,
) -> Result<(Seq<Seq<char>>, Seq<Seq<char>>), RegistryError>
    decreases lines.len(),
{
    if lines.len() == 0 {
        Ok((Seq::empty(), Seq::empty()))
    } else {
        match scan_prefix(lines.drop_last(), filter, color) {
            Ok((buffer, output)) => match step(buffer, lines.last(), filter, color) {
                Ok((next, emitted)) => Ok((next, output + emitted)),
                Err(e) => Err(e),
            },
            Err(e) => Err(e),
        }
    }
}

/// The two lines that end the output: a separator and the word that the
/// scan is over, in green where colour is on.
pub open spec fn closing(color: bool) -> Seq<Seq<char>> {
    seq![
        separator(),
        if color {
            "\x1b[32mDONE!\x1b[m"@
        } else {
            "DONE!"@
        },
    ]
}

/// The whole output for a registry: what its lines give in order, then
/// the record left at the end, then the closing lines.
pub open spec fn scan_output(
    lines: Seq<Seq<char>>,
    filter: Map<Seq<char>, Seq<char>>,
    color: bool,
) -> Result<Seq<Seq<char>>, RegistryError> {
    match scan_prefix(lines, filter, color) {
        Ok((buffer, output)) => match flush(buffer, filter, color) {
            Ok(last) => Ok(output + last + closing(color)),
            Err(e) => Err(e),
        },
        Err(e) => Err(e),
    }
}

/// Holds the record in progress while the registry is read line by line.
#[derive(Debug)]
pub struct RecordReader {
    current: Vec<String>,
}

impl RecordReader {
    /// The lines of the record in progress.
    pub closed spec fn buffer(&self) -> Seq<Seq<char>> {
        texts(self.current@)
    }

    /// A reader with no record in progress.
    pub fn new() -> (r: RecordReader)
        ensures
            r.buffer() == Seq::<Seq<char>>::empty(),
    {
        let r = RecordReader { current: Vec::new() };
        assert(r.buffer() =~= Seq::<Seq<char>>::empty());
        r
    }

    /// The number of lines of the record in progress.
    pub fn pending_lines(&self) -> (n: usize)
        ensures
            n == self.buffer().len(),
    {
        self.current.len()
    }

    /// Takes the next line of the registry and gives the lines to write
    /// out for it. On an error the record in progress stays as it was.
    pub fn feed(&mut self, line: String, filter: &FieldMap, color: bool) -> (r: Result<
        Vec<String>,
        RegistryError,
    >)
        ensures
            match r {
                Ok(out) => step(old(self).buffer(), line@, filter@, color) == Ok::<
                    (Seq<Seq<char>>, Seq<Seq<char>>),
                    RegistryError,
                >((final(self).buffer(), texts(out@))),
                Err(e) => step(old(self).buffer(), line@, filter@, color) == Err::<
                    (Seq<Seq<char>>, Seq<Seq<char>>),
                    RegistryError,
                >(e) && final(self).buffer() == old(self).buffer(),
            },
    {
        let mut out: Vec<String> = Vec::new();
        match classify_line(line.as_str()) {
            LineKind::DocumentDate => {
                out.push(line);
                assert(texts(out@) =~= seq![line@]);
            },
            LineKind::Separator => {
                match report_record(&self.current, filter, color) {
                    Ok(shown) => {
                        out = shown;
                        self.current = Vec::new();
                        assert(self.buffer() =~= Seq::<Seq<char>>::empty());
                    },
                    Err(e) => {
                        return Err(e);
                    },
                }
            },
            LineKind::Continuation => {
                let ghost before = self.buffer();
                match self.current.pop() {
                    Some(last) => {
                        proof {
                            reveal_strlit("  ");
                        }
                        let chars = chars_of(line.as_str());
                        let mut joined = last;
                        joined.append(line.as_str().substring_char(1, chars.len()));
                        self.current.push(joined);
                        assert(self.buffer() =~= extended(before, line@));
                        assert(texts(out@) =~= Seq::<Seq<char>>::empty());
                    },
                    None => {
                        assert(self.buffer() =~= before);
                        return Err(RegistryError::OrphanContinuation);
                    },
                }
            },
            LineKind::Field => {
                let ghost before = self.buffer();
                self.current.push(line);
                assert(self.buffer() =~= before.push(line@));
                assert(texts(out@) =~= Seq::<Seq<char>>::empty());
            },
        }
        Ok(out)
    }

    /// Ends the input: evaluates the record still in progress, if there is
    /// one, and gives the lines to write out for it.
    pub fn finish(self, filter: &FieldMap, color: bool) -> (r: Result<Vec<String>, RegistryError>)
        ensures
            match r {
                Ok(out) => flush(self.buffer(), filter@, color) == Ok::<
                    Seq<Seq<char>>,
                    RegistryError,
                >(texts(out@)),
                Err(e) => flush(self.buffer(), filter@, color) == Err::<
                    Seq<Seq<char>>,
                    RegistryError,
                >(e),
            },
    {
        if self.current.len() == 0 {
            let out: Vec<String> = Vec::new();
            assert(texts(out@) =~= Seq::<Seq<char>>::empty());
            Ok(out)
        } else {
            report_record(&self.current, filter, color)
        }
    }
}

/// The two lines that end the output.
pub fn closing_lines(color: bool) -> (out: Vec<String>)
    ensures
        texts(out@) == closing(color),
{
    let mut out: Vec<String> = Vec::new();
    out.push(String::from_str("%%"));
    out.push(String::from_str(if color { "\x1b[32mDONE!\x1b[m" } else { "DONE!" }));
    assert(texts(out@) =~= closing(color));
    out
}

fn append_all(out: &mut Vec<String>, more: Vec<String>)
    ensures
        texts(final(out)@) == texts(old(out)@) + texts(more@),
{
    let ghost start = out@;
    let mut i: usize = 0;
    assert(texts(out@) =~= texts(start) + texts(more@.take(0)));
    while i < more.len()
        invariant
            i <= more.len(),
            texts(out@) == texts(start) + texts(more@.take(i as int)),
        decreases more.len() - i,
    {
        let ghost before = out@;
        out.push(more[i].clone());
        proof {
            assert(texts(out@) =~= texts(before).push(more@[i as int]@));
            assert(texts(more@.take(i + 1)) =~= texts(more@.take(i as int)).push(
                more@[i as int]@,
            ));
            assert(texts(out@) =~= texts(start) + texts(more@.take(i + 1)));
        }
        i += 1;
    }
    assert(more@.take(i as int) =~= more@);
}

/// Reads a whole registry and gives the whole output: for each record
/// that satisfies the filter its rendering, in the order of the input,
/// the document date where it stands, and the closing lines.
pub fn scan(lines: &Vec<String>, filter: &FieldMap, color: bool) -> (r: Result<
    Vec<String>,
    RegistryError,
>)
    ensures
        match r {
            Ok(out) => scan_output(texts(lines@), filter@, color) == Ok::<
                Seq<Seq<char>>,
                RegistryError,
            >(texts(out@)),
            Err(e) => scan_output(texts(lines@), filter@, color) == Err::<
                Seq<Seq<char>>,
                RegistryError,
            >(e),
        },
{
    let ghost all = texts(lines@);
    let mut reader = RecordReader::new();
    let mut out: Vec<String> = Vec::new();
    let mut i: usize = 0;
    assert(texts(out@) =~= Seq::<Seq<char>>::empty());
    while i < lines.len()
        invariant
            all == texts(lines@),
            i <= lines.len(),
            scan_prefix(all.take(i as int), filter@, color) == Ok::<
                (Seq<Seq<char>>, Seq<Seq<char>>),
                RegistryError,
            >((reader.buffer(), texts(out@))),
        decreases lines.len() - i,
    {
        proof {
            assert(all.take(i + 1).drop_last() =~= all.take(i as int));
            assert(all.take(i + 1).last() == all[i as int]);
        }
        match reader.feed(lines[i].clone(), filter, color) {
            Ok(emitted) => {
                append_all(&mut out, emitted);
            },
            Err(e) => {
                proof {
                    lemma_scan_error_stays(all, filter@, color, i + 1);
                }
                return Err(e);
            },
        }
        i += 1;
    }
    proof {
        assert(all.take(i as int) =~= all);
    }
    match reader.finish(filter, color) {
        Ok(last) => {
            append_all(&mut out, last);
            append_all(&mut out, closing_lines(color));
            Ok(out)
        },
        Err(e) => Err(e),
    }
}

/// An error met on a prefix of the lines is the error of the whole scan.
pub proof fn lemma_scan_error_stays(
    lines: Seq<Seq<char>>,
    filter: Map<Seq<char>, Seq<char>>,
    color: bool,
    n: int,
)
    requires
        0 <= n <= lines.len(),
        scan_prefix(lines.take(n), filter, color) is Err,
    ensures
        scan_prefix(lines, filter, color) == scan_prefix(lines.take(n), filter, color),
    decreases lines.len() - n,
{
    if n == lines.len() {
        assert(lines.take(n) =~= lines);
    } else {
        assert(lines.take(n + 1).drop_last() =~= lines.take(n));
        lemma_scan_error_stays(lines, filter, color, n + 1);
    }
}

/// The line that dates the document goes to the output as it is and
/// leaves the record in progress untouched.
pub proof fn lemma_document_date_passes(
    buffer: Seq<Seq<char>>,
    line: Seq<char>,
    filter: Map<Seq<char>, Seq<char>>,
    color: bool,
)
    requires
        starts_with_seq(line, "File-Date:"@),
    ensures
        step(buffer, line, filter, color) == Ok::<
            (Seq<Seq<char>>, Seq<Seq<char>>),
            RegistryError,
        >((buffer, seq![line])),
{
}

/// A field line and a continuation line after it make one line: the
/// field's value goes on with the continuation, whose two leading spaces
/// are brought down to one.
pub proof fn lemma_continuation_extends_value(
    name: Seq<char>,
    value: Seq<char>,
    rest: Seq<char>,
    filter: Map<Seq<char>, Seq<char>>,
    color: bool,
)
    requires
        !contains_seq(name, delimiter()),
    ensures
        step(seq![name + delimiter() + value], "  "@ + rest, filter, color) == Ok::<
            (Seq<Seq<char>>, Seq<Seq<char>>),
            RegistryError,
        >((seq![name + delimiter() + (value + " "@ + rest)], Seq::empty())),
        split_field(name + delimiter() + (value + " "@ + rest)) == Some(
            (name, value + " "@ + rest),
        ),
{
    reveal_strlit("  ");
    reveal_strlit(" ");
    reveal_strlit("%%");
    reveal_strlit("File-Date:");
    let line = name + delimiter() + value;
    let cont = "  "@ + rest;
    assert(cont[0] == ' ');
    assert(cont.subrange(0, 2) =~= "  "@);
    if starts_with_seq(cont, "File-Date:"@) {
        assert(cont.subrange(0, 10)[0] == cont[0]);
    }
    if starts_with_seq(cont, "%%"@) {
        assert(cont.subrange(0, 2)[0] == cont[0]);
    }
    assert(line_kind(cont) == LineKind::Continuation);
    assert(cont.skip(1) =~= " "@ + rest);
    assert(line + cont.skip(1) =~= name + delimiter() + (value + " "@ + rest));
    assert(extended(seq![line], cont) =~= seq![name + delimiter() + (value + " "@ + rest)]);
    lemma_split_joined(name, value + " "@ + rest);
}

/// A record left at the end of the input is evaluated as if a separator
/// line had closed it.
pub proof fn lemma_trailing_record_flushed(
    lines: Seq<Seq<char>>,
    filter: Map<Seq<char>, Seq<char>>,
    color: bool,
)
    requires
        scan_prefix(lines, filter, color) is Ok,
        scan_prefix(lines, filter, color)->Ok_0.0.len() > 0,
    ensures
        scan_output(lines, filter, color) == scan_output(lines.push(separator()), filter, color),
{
    reveal_strlit("%%");
    reveal_strlit("File-Date:");
    let closed = lines.push(separator());
    assert(closed.drop_last() =~= lines);
    assert(closed.last() == separator());
    assert(separator().subrange(0, 2) =~= separator());
    assert(line_kind(separator()) == LineKind::Separator);
    let (buffer, output) = scan_prefix(lines, filter, color)->Ok_0;
    if well_formed(buffer) {
        let shown = record_output(buffer, filter, color);
        assert(scan_prefix(closed, filter, color) == Ok::<
            (Seq<Seq<char>>, Seq<Seq<char>>),
            RegistryError,
        >((Seq::empty(), output + shown)));
        assert(output + shown + Seq::<Seq<char>>::empty() =~= output + shown);
    }
}

/// Lines that follow a closed record are read as if they stood alone:
/// their output comes after what came before, and the record in progress
/// is theirs.
pub proof fn lemma_records_are_independent(
    head: Seq<Seq<char>>,
    tail: Seq<Seq<char>>,
    filter: Map<Seq<char>, Seq<char>>,
    color: bool,
)
    requires
        scan_prefix(head, filter, color) is Ok,
        scan_prefix(head, filter, color)->Ok_0.0.len() == 0,
    ensures
        scan_prefix(head + tail, filter, color) == (match scan_prefix(tail, filter, color) {
            Ok((buffer, output)) => Ok(
                (buffer, scan_prefix(head, filter, color)->Ok_0.1 + output),
            ),
            Err(e) => Err::<(Seq<Seq<char>>, Seq<Seq<char>>), RegistryError>(e),
        }),
    decreases tail.len(),
{
    let before = scan_prefix(head, filter, color)->Ok_0.1;
    if tail.len() == 0 {
        assert(head + tail =~= head);
        assert(scan_prefix(head, filter, color)->Ok_0.0 =~= Seq::<Seq<char>>::empty());
        assert(before + Seq::<Seq<char>>::empty() =~= before);
    } else {
        lemma_records_are_independent(head, tail.drop_last(), filter, color);
        assert((head + tail).drop_last() =~= head + tail.drop_last());
        assert((head + tail).last() == tail.last());
        match scan_prefix(tail.drop_last(), filter, color) {
            Ok((buffer, output)) => {
                match step(buffer, tail.last(), filter, color) {
                    Ok((next, emitted)) => {
                        assert((before + output) + emitted =~= before + (output + emitted));
                    },
                    Err(_) => {},
                }
            },
            Err(_) => {},
        }
    }
}

} // verus!
