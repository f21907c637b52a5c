//! Tables of separated text: a writer, a line parser and a reader.

use crate::error::RunError;
use crate::text::{
    field_offset, field_stands_in, join, join_strings, lemma_join_keeps_fields,
    lemma_split_join, split, split_string,
};
use vstd::prelude::*;

verus! {

/// One line of output: the fields with a tab between each two, then a newline.
/// Nothing inside a field is quoted or escaped.
pub open spec fn tsv_line(fields: Seq<Seq<char>>) -> Seq<char> {
    join(fields, seq!['\t']).push('\n')
}

/// What is reported when a column is asked for that the header lacks.
pub open spec fn missing_col_message(col: Seq<char>) -> Seq<char> {
    "Missing column "@ + col + "."@
}

/// The error for a column that the header lacks.
pub fn error_missing_col(col: &str) -> (error: RunError)
    ensures
        error@ == missing_col_message(col@),
{
    let mut message = String::from_str("Missing column ");
    message.append(col);
    message.append(".");
    RunError::new(message)
}

/// Writes rows as lines of tab-separated text.
#[derive(Debug)]
pub struct TsvWriter {
    inner: String,
}

impl View for TsvWriter {
    type V = Seq<char>;

    /// All the text written so far.
    closed spec fn view(&self) -> Seq<char> {
        self.inner@
    }
}

impl TsvWriter {
    /// A writer that appends to `inner`. The header is written at once, as
    /// the first line.
    pub fn new(inner: String, header: &[String]) -> (writer: TsvWriter)
        ensures
            writer@ == inner@ + tsv_line(header.deep_view()),
    {
        let mut writer = TsvWriter { inner };
        writer.write(header);
        writer
    }

    /// Writes `fields` as one line.
    pub fn write(&mut self, fields: &[String])
        ensures
            final(self)@ == old(self)@ + tsv_line(fields.deep_view()),
    {
        proof {
            reveal_strlit("\t");
            reveal_strlit("\n");
            assert("\t"@ == seq!['\t']);
        }
        let line = join_strings(fields, "\t");
        self.inner.append(line.as_str());
        self.inner.append("\n");
    }

    /// Gives back the text, with all that was written.
    pub fn into_inner(self) -> (inner: String)
        ensures
            inner@ == self@,
    {
        self.inner
    }
}

/// Takes a line of text apart into its fields.
#[derive(Debug)]
pub struct LineParser {
    separator: char,
}

impl LineParser {
    /// The character that stands between two fields.
    pub closed spec fn separator(self) -> char {
        self.separator
    }

    /// A parser for fields with `separator` between them.
    pub fn new(separator: char) -> (parser: LineParser)
        ensures
            parser.separator() == separator,
    {
        LineParser { separator }
    }

    /// A parser for fields with a tab between them.
    pub fn tabs() -> (parser: LineParser)
        ensures
            parser.separator() == '\t',
    {
        LineParser { separator: '\t' }
    }

    /// The fields of `line`: one more than it holds separators.
    pub fn parse(&self, line: &str) -> (fields: Vec<String>)
        ensures
            fields.deep_view() == split(line@, self.separator()),
    {
        split_string(line, self.separator)
    }
}

/// A line as it was read, or the message of the error that reading it met.
pub open spec fn line_text(line: Result<String, RunError>) -> Result<Seq<char>, Seq<char>> {
    match line {
        Ok(text) => Ok(text@),
        Err(error) => Err(error@),
    }
}

/// The lines as they were read.
pub open spec fn lines_text(lines: Seq<Result<String, RunError>>) -> Seq<
    Result<Seq<char>, Seq<char>>,
> {
    Seq::new(lines.len(), |i: int| line_text(lines[i]))
}

/// Whether `at` is the first place in `names` where `name` stands.
pub open spec fn is_first_position(names: Seq<Seq<char>>, name: Seq<char>, at: int) -> bool {
    &&& 0 <= at < names.len()
    &&& names[at] == name
    &&& forall|j: int| 0 <= j < at ==> names[j] != name
}

/// Whether `at` is the last place in `names` where `name` stands.
pub open spec fn is_last_position(names: Seq<Seq<char>>, name: Seq<char>, at: int) -> bool {
    &&& 0 <= at < names.len()
    &&& names[at] == name
    &&& forall|j: int| at < j < names.len() ==> names[j] != name
}

/// Reads a table of separated text: a header line, then one line for each
/// row.
#[derive(Debug)]
pub struct TsvReader {
    line_parser: LineParser,
    header: Vec<String>,
    lines: Vec<Result<String, RunError>>,
    position: usize,
}

impl TsvReader {
    #[verifier::type_invariant]
    spec fn well_formed(self) -> bool {
        self.position <= self.lines@.len()
    }

    /// The names of the columns.
    pub closed spec fn columns(self) -> Seq<Seq<char>> {
        self.header.deep_view()
    }

    /// The lines that `next` has yet to hand out.
    pub closed spec fn pending(self) -> Seq<Result<Seq<char>, Seq<char>>> {
        lines_text(self.lines@).skip(self.position as int)
    }

    /// The character that stands between two fields.
    pub closed spec fn separator(self) -> char {
        self.line_parser.separator()
    }

    /// A reader of `lines`, of which the first is the header.
    ///
    /// Fails where there is no first line, and where reading it had failed.
    pub fn new(lines: Vec<Result<String, RunError>>, line_parser: LineParser) -> (made: Result<
        TsvReader,
        RunError,
    >)
        ensures
            match made {
                Ok(reader) => {
                    &&& lines@.len() > 0
                    &&& lines_text(lines@)[0] matches Ok(first)
                    &&& reader.columns() == split(first, line_parser.separator())
                    &&& reader.pending() == lines_text(lines@).skip(1)
                    &&& reader.separator() == line_parser.separator()
                },
                Err(error) => if lines@.len() == 0 {
                    error@ == "No header line"@
                } else {
                    lines_text(lines@)[0] == Err::<Seq<char>, Seq<char>>(error@)
                },
            },
    {
        if lines.len() == 0 {
            return Err(RunError::from_text("No header line"));
        }
        let header = match &lines[0] {
            Ok(line) => line_parser.parse(line.as_str()),
            Err(error) => {
                return Err(error.clone());
            },
        };
        Ok(TsvReader { line_parser, header, lines, position: 1 })
    }

    /// The names of the columns.
    pub fn header(&self) -> (header: &Vec<String>)
        ensures
            header.deep_view() == self.columns(),
    {
        &self.header
    }

    /// The first column called `col`.
    pub fn col_to_i(&self, col: &str) -> (found: Result<usize, RunError>)
        ensures
            match found {
                Ok(i) => is_first_position(self.columns(), col@, i as int),
                Err(error) => !self.columns().contains(col@) && error@ == missing_col_message(
                    col@,
                ),
            },
    {
        let mut i: usize = 0;
        while i < self.header.len()
            invariant
                i <= self.header@.len(),
                forall|j: int| 0 <= j < i ==> self.header.deep_view()[j] != col@,
            decreases self.header@.len() - i,
        {
            if self.header[i].as_str().eq(col) {
                return Ok(i);
            }
            i += 1;
        }
        Err(error_missing_col(col))
    }

    /// The last column called `col`.
    fn last_col(&self, col: &str) -> (found: Option<usize>)
        ensures
            match found {
                Some(i) => is_last_position(self.columns(), col@, i as int),
                None => !self.columns().contains(col@),
            },
    {
        let mut i: usize = self.header.len();
        while i > 0
            invariant
                i <= self.header@.len(),
                forall|j: int| i <= j < self.header@.len() ==> self.header.deep_view()[j] != col@,
            decreases i,
        {
            i -= 1;
            if self.header[i].as_str().eq(col) {
                return Some(i);
            }
        }
        None
    }

    /// For each of `cols`, the column called so: the last one, where several
    /// are.
    ///
    /// Fails at the first of `cols` that no column is called.
    pub fn cols_to_is(&self, cols: &[String]) -> (found: Result<Vec<usize>, RunError>)
        ensures
            match found {
                Ok(is) => {
                    &&& is@.len() == cols@.len()
                    &&& forall|k: int|
                        0 <= k < cols@.len() ==> is_last_position(
                            self.columns(),
                            cols@[k]@,
                            #[trigger] is@[k] as int,
                        )
                },
                Err(error) => exists|k: int|
                    {
                        &&& 0 <= k < cols@.len()
                        &&& !self.columns().contains(#[trigger] cols@[k]@)
                        &&& forall|e: int| 0 <= e < k ==> self.columns().contains(cols@[e]@)
                        &&& error@ == missing_col_message(cols@[k]@)
                    },
            },
    {
        let mut is: Vec<usize> = Vec::new();
        let mut k: usize = 0;
        while k < cols.len()
            invariant
                k <= cols@.len(),
                is@.len() == k,
                forall|e: int|
                    0 <= e < k ==> is_last_position(
                        self.columns(),
                        cols@[e]@,
                        #[trigger] is@[e] as int,
                    ),
            decreases cols@.len() - k,
        {
            match self.last_col(cols[k].as_str()) {
                None => {
                    proof {
                        assert forall|e: int| 0 <= e < k implies self.columns().contains(
                            cols@[e]@,
                        ) by {
                            assert(is_last_position(self.columns(), cols@[e]@, is@[e] as int));
                        }
                    }
                    return Err(error_missing_col(cols[k].as_str()));
                },
                Some(i) => {
                    is.push(i);
                },
            }
            k += 1;
        }
        Ok(is)
    }

    /// The fields of the next line.
    ///
    /// `None` after the last line. Where reading the line had failed, its
    /// error.
    pub fn next(&mut self) -> (row: Option<Result<Vec<String>, RunError>>)
        ensures
            final(self).columns() == old(self).columns(),
            final(self).separator() == old(self).separator(),
            match row {
                None => old(self).pending().len() == 0 && final(self).pending().len() == 0,
                Some(row) => {
                    &&& old(self).pending().len() > 0
                    &&& final(self).pending() == old(self).pending().skip(1)
                    &&& match row {
                        Ok(fields) => old(self).pending()[0] matches Ok(line)
                            && fields.deep_view() == split(line, old(self).separator()),
                        Err(error) => old(self).pending()[0] == Err::<Seq<char>, Seq<char>>(
                            error@,
                        ),
                    }
                },
            },
    {
        proof {
            use_type_invariant(&*self);
        }
        if self.position >= self.lines.len() {
            return None;
        }
        let row = match &self.lines[self.position] {
            Ok(line) => Ok(self.line_parser.parse(line.as_str())),
            Err(error) => Err(error.clone()),
        };
        self.position = self.position + 1;
        Some(row)
    }
}

/// A written line, without its newline, is read back as the fields that
/// were written, where there is at least one field and no field holds a tab.
///
/// A field that holds a tab is written as it is, and is read back as two
/// fields or more.
pub proof fn lemma_line_reads_back(fields: Seq<Seq<char>>)
    requires
        fields.len() >= 1,
        forall|i: int| 0 <= i < fields.len() ==> !(#[trigger] fields[i]).contains('\t'),
    ensures
        tsv_line(fields).last() == '\n',
        split(tsv_line(fields).drop_last(), '\t') == fields,
{
    lemma_split_join(fields, '\t');
    assert(tsv_line(fields).drop_last() == join(fields, seq!['\t']));
}

/// Nothing is escaped. Every field stands in its line exactly as it was
/// given, whatever it holds, a tab or a newline too: the line is the fields,
/// a tab before each but the first, and a newline.
pub proof fn lemma_fields_written_as_they_are(fields: Seq<Seq<char>>)
    requires
        fields.len() >= 1,
    ensures
        tsv_line(fields).len() == field_offset(fields, fields.len() as int),
        tsv_line(fields).last() == '\n',
        forall|i: int|
            0 <= i < fields.len() ==> #[trigger] field_stands_in(tsv_line(fields), fields, i, '\t'),
{
    lemma_join_keeps_fields(fields, '\t');
    let text = join(fields, seq!['\t']);
    assert forall|i: int| 0 <= i < fields.len() implies #[trigger] field_stands_in(
        tsv_line(fields),
        fields,
        i,
        '\t',
    ) by {
        assert(field_stands_in(text, fields, i, '\t'));
        let from = field_offset(fields, i);
        assert(tsv_line(fields).subrange(from, from + fields[i].len()) == text.subrange(
            from,
            from + fields[i].len(),
        ));
        if i >= 1 {
        }
    }
}

} // verus!
