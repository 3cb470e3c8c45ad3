use vstd::prelude::*;

verus! {

/// Separates the author from the text on a wire line.
pub const DELIMITER: char = ',';

/// Marks a fragment after which more text of the same author follows.
pub const CONTINUATION: char = '$';

/// The author given to a line that names none.
pub open spec fn unknown_author() -> Seq<char> {
    "Unknown author"@
}

pub open spec fn is_terminator(c: char) -> bool {
    c == '\n' || c == '\r'
}

/// `s` without the line terminator characters at its end.
pub open spec fn strip_terminator(s: Seq<char>) -> Seq<char>
    decreases s.len(),
{
    if s.len() > 0 && is_terminator(s.last()) {
        strip_terminator(s.drop_last())
    } else {
        s
    }
}

/// `i` is the position of the first delimiter of `s`.
pub open spec fn is_first_delimiter(s: Seq<char>, i: int) -> bool {
    &&& 0 <= i < s.len()
    &&& s[i] == DELIMITER
    &&& forall|j: int| 0 <= j < i ==> s[j] != DELIMITER
}

pub open spec fn has_delimiter(s: Seq<char>) -> bool {
    exists|i: int| is_first_delimiter(s, i)
}

pub open spec fn first_delimiter(s: Seq<char>) -> int {
    choose|i: int| is_first_delimiter(s, i)
}

/// The author that a wire line names.
pub open spec fn line_author(line: Seq<char>) -> Seq<char> {
    if has_delimiter(line) {
        line.subrange(0, first_delimiter(line))
    } else {
        unknown_author()
    }
}

/// The text of a wire line, before its continuation marker is looked at.
pub open spec fn line_text(line: Seq<char>) -> Seq<char> {
    if has_delimiter(line) {
        strip_terminator(line.subrange(first_delimiter(line) + 1, line.len() as int))
    } else {
        strip_terminator(line)
    }
}

pub open spec fn ends_with_continuation(t: Seq<char>) -> bool {
    t.len() > 0 && t.last() == CONTINUATION
}

/// The payload of a fragment: its text without the continuation marker.
pub open spec fn fragment_payload(t: Seq<char>) -> Seq<char> {
    if ends_with_continuation(t) {
        t.drop_last()
    } else {
        t
    }
}

/// What a record is, as values.
pub struct RecordModel {
    pub author: Seq<char>,
    pub body: Seq<char>,
}

/// What a fragment is, as values.
pub struct FragmentModel {
    pub author: Seq<char>,
    pub text: Seq<char>,
    pub continues: bool,
}

/// The fragment that a wire line stands for.
pub open spec fn parse_spec(line: Seq<char>) -> FragmentModel {
    FragmentModel {
        author: line_author(line),
        text: fragment_payload(line_text(line)),
        continues: ends_with_continuation(line_text(line)),
    }
}

/// The line that the console sink writes for a record.
pub open spec fn console_text(r: RecordModel) -> Seq<char> {
    r.author + ": "@ + r.body
}

/// The values of a sequence of records.
pub open spec fn records_model(rs: Seq<Record>) -> Seq<RecordModel> {
    rs.map_values(|r: Record| r@)
}

/// A complete message: who wrote it and what it says.
pub struct Record {
    pub author: String,
    pub body: String,
}

impl View for Record {
    type V = RecordModel;

    open spec fn view(&self) -> RecordModel {
        RecordModel { author: self.author@, body: self.body@ }
    }
}

impl Record {
    pub fn new(author: &str, body: &str) -> (r: Record)
        ensures
            r@ == (RecordModel { author: author@, body: body@ }),
    {
        Record { author: author.to_owned(), body: body.to_owned() }
    }

    /// A second record with the same author and body.
    pub fn duplicate(&self) -> (r: Record)
        ensures
            r@ == self@,
    {
        Record { author: self.author.clone(), body: self.body.clone() }
    }

    /// The line that the console sink writes: `author: body`.
    pub fn console_line(&self) -> (r: String)
        ensures
            r@ == console_text(self@),
    {
        let mut out = self.author.clone();
        out.append(": ");
        out.append(self.body.as_str());
        out
    }
}

/// One wire line, split into author and text.
pub struct Fragment {
    pub author: String,
    pub text: String,
    pub continues: bool,
}

impl View for Fragment {
    type V = FragmentModel;

    open spec fn view(&self) -> FragmentModel {
        FragmentModel { author: self.author@, text: self.text@, continues: self.continues }
    }
}

/// The position of the first delimiter of `line`, if it has one.
fn find_delimiter(line: &str) -> (r: Option<usize>)
    ensures
        match r {
            Some(i) => is_first_delimiter(line@, i as int),
            None => !has_delimiter(line@),
        },
{
    let n = line.unicode_len();
    let mut i: usize = 0;
    while i < n
        invariant
            n == line@.len(),
            i <= n,
            forall|j: int| 0 <= j < i ==> line@[j] != DELIMITER,
        decreases n - i,
    {
        if line.get_char(i) == DELIMITER {
            return Some(i);
        }
        i = i + 1;
    }
    assert forall|k: int| !is_first_delimiter(line@, k) by {
        if is_first_delimiter(line@, k) {
            assert(line@[k] == DELIMITER);
        }
    }
    None
}

proof fn lemma_first_delimiter_unique(s: Seq<char>, i: int)
    requires
        is_first_delimiter(s, i),
    ensures
        has_delimiter(s),
        first_delimiter(s) == i,
{
    let k = first_delimiter(s);
    assert(is_first_delimiter(s, k));
    if k < i {
        assert(s[k] != DELIMITER);
    } else if i < k {
        assert(s[i] != DELIMITER);
    }
}

/// `s` with the terminator characters at its end removed.
fn strip_line_terminator(s: &str) -> (r: &str)
    ensures
        r@ == strip_terminator(s@),
{
    let mut end = s.unicode_len();
    assert(s@.subrange(0, end as int) =~= s@);
    while end > 0 && (s.get_char(end - 1) == '\n' || s.get_char(end - 1) == '\r')
        invariant
            end <= s@.len(),
            strip_terminator(s@) == strip_terminator(s@.subrange(0, end as int)),
        decreases end,
    {
        assert(s@.subrange(0, end as int).drop_last() =~= s@.subrange(0, end - 1));
        end = end - 1;
    }
    s.substring_char(0, end)
}

/// Splits a wire line `author,text` into a fragment.
///
/// The author is what precedes the first comma; a line without a comma
/// has the author "Unknown author" and is text as a whole. Line terminators
/// at the end are dropped, and a final `$` marks the fragment as one that
/// more text of the same author will follow; the marker is removed.
pub fn parse(line: &str) -> (f: Fragment)
    ensures
        f@ == parse_spec(line@),
{
    let n = line.unicode_len();
    let (author, raw) = match find_delimiter(line) {
        Some(i) => {
            proof {
                lemma_first_delimiter_unique(line@, i as int);
            }
            (line.substring_char(0, i).to_owned(), line.substring_char(i + 1, n))
        },
        None => (String::from_str("Unknown author"), line),
    };
    let text = strip_line_terminator(raw);
    let len = text.unicode_len();
    if len > 0 && text.get_char(len - 1) == CONTINUATION {
        Fragment { author, text: text.substring_char(0, len - 1).to_owned(), continues: true }
    } else {
        Fragment { author, text: text.to_owned(), continues: false }
    }
}

proof fn lemma_no_terminator_at_end(s: Seq<char>)
    requires
        !(s.len() > 0 && is_terminator(s.last())),
    ensures
        strip_terminator(s) == s,
{
}

proof fn lemma_split_at_delimiter(a: Seq<char>, b: Seq<char>)
    requires
        forall|j: int| 0 <= j < a.len() ==> a[j] != DELIMITER,
    ensures
        has_delimiter(a + seq![DELIMITER] + b),
        first_delimiter(a + seq![DELIMITER] + b) == a.len(),
        (a + seq![DELIMITER] + b).subrange(0, a.len() as int) == a,
        (a + seq![DELIMITER] + b).subrange(a.len() as int + 1, (a + seq![DELIMITER] + b).len() as int)
            == b,
{
    let line = a + seq![DELIMITER] + b;
    assert(is_first_delimiter(line, a.len() as int));
    lemma_first_delimiter_unique(line, a.len() as int);
    assert(line.subrange(0, a.len() as int) =~= a);
    assert(line.subrange(a.len() as int + 1, line.len() as int) =~= b);
}

/// A line without a comma belongs to the unknown author, and all of it,
/// terminators stripped, is the text (when it does not end in the
/// continuation marker).
pub proof fn lemma_parse_without_delimiter(line: Seq<char>)
    requires
        !has_delimiter(line),
        !ends_with_continuation(strip_terminator(line)),
    ensures
        parse_spec(line) == (FragmentModel {
            author: unknown_author(),
            text: strip_terminator(line),
            continues: false,
        }),
{
}

/// The line `A,B` gives author `A` and text `B`, when `A` holds no comma
/// and `B` ends neither in a terminator nor in the continuation marker.
pub proof fn lemma_parse_author_and_text(a: Seq<char>, b: Seq<char>)
    requires
        forall|j: int| 0 <= j < a.len() ==> a[j] != DELIMITER,
        !(b.len() > 0 && is_terminator(b.last())),
        !ends_with_continuation(b),
    ensures
        parse_spec(a + seq![DELIMITER] + b) == (FragmentModel { author: a, text: b, continues: false }),
{
    lemma_split_at_delimiter(a, b);
    lemma_no_terminator_at_end(b);
}

/// A text that ends in the continuation marker makes a continuing fragment
/// whose text is the line's text without the marker.
pub proof fn lemma_parse_continuation(a: Seq<char>, t: Seq<char>)
    requires
        forall|j: int| 0 <= j < a.len() ==> a[j] != DELIMITER,
    ensures
        parse_spec(a + seq![DELIMITER] + (t + seq![CONTINUATION])) == (FragmentModel {
            author: a,
            text: t,
            continues: true,
        }),
{
    let b = t + seq![CONTINUATION];
    lemma_split_at_delimiter(a, b);
    lemma_no_terminator_at_end(b);
    assert(b.drop_last() =~= t);
}

} // verus!
