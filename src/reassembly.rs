use vstd::prelude::*;
use crate::record::{parse, parse_spec, Fragment, FragmentModel, Record, RecordModel};

verus! {

/// The text pending for `author`, or nothing when none is.
pub open spec fn pending_text(table: Map<Seq<char>, Seq<char>>, author: Seq<char>) -> Seq<char> {
    if table.contains_key(author) {
        table[author]
    } else {
        Seq::empty()
    }
}

/// The table after one fragment, and the record it completes, if any.
///
/// A continuing fragment adds its text to what its author has pending; a
/// final one takes the pending text out, and the record's body is that text
/// followed by the fragment's.
pub open spec fn ingest_spec(table: Map<Seq<char>, Seq<char>>, f: FragmentModel) -> (
    Map<Seq<char>, Seq<char>>,
    Option<RecordModel>,
) {
    let joined = pending_text(table, f.author) + f.text;
    if f.continues {
        (table.insert(f.author, joined), None)
    } else {
        (table.remove(f.author), Some(RecordModel { author: f.author, body: joined }))
    }
}

pub open spec fn record_model(r: Option<Record>) -> Option<RecordModel> {
    match r {
        Some(rec) => Some(rec@),
        None => None,
    }
}

struct PendingEntry {
    author: String,
    text: String,
}

/// No author appears twice among `es`.
spec fn unique_authors(es: Seq<PendingEntry>) -> bool {
    forall|i: int, j: int| 0 <= i < j < es.len() ==> es[i].author@ != es[j].author@
}

spec fn holds_author(es: Seq<PendingEntry>, i: int, a: Seq<char>) -> bool {
    0 <= i < es.len() && es[i].author@ == a
}

spec fn table_of(es: Seq<PendingEntry>) -> Map<Seq<char>, Seq<char>> {
    Map::new(
        |a: Seq<char>| exists|i: int| holds_author(es, i, a),
        |a: Seq<char>| es[choose|i: int| holds_author(es, i, a)].text@,
    )
}

proof fn lemma_table_at(es: Seq<PendingEntry>, i: int)
    requires
        unique_authors(es),
        0 <= i < es.len(),
    ensures
        table_of(es).contains_key(es[i].author@),
        table_of(es)[es[i].author@] == es[i].text@,
{
    let a = es[i].author@;
    assert(holds_author(es, i, a));
    let k = choose|k: int| holds_author(es, k, a);
    if k < i {
        assert(es[k].author@ != es[i].author@);
    } else if i < k {
        assert(es[i].author@ != es[k].author@);
    }
}

/// Keys and values of the table, in terms of the entries.
proof fn lemma_table(es: Seq<PendingEntry>)
    requires
        unique_authors(es),
    ensures
        forall|a: Seq<char>|
            #![trigger table_of(es).contains_key(a)]
            table_of(es).contains_key(a) <==> exists|i: int| holds_author(es, i, a),
        forall|i: int|
            #![trigger es[i]]
            0 <= i < es.len() ==> table_of(es).contains_key(es[i].author@) && table_of(es)[es[i].author@]
                == es[i].text@,
{
    assert forall|i: int|
        #![trigger es[i]]
        0 <= i < es.len() implies table_of(es).contains_key(es[i].author@) && table_of(es)[es[i].author@]
        == es[i].text@ by {
        lemma_table_at(es, i);
    }
}

/// The text that each author has sent so far of a message not yet complete.
pub struct PendingTable {
    entries: Vec<PendingEntry>,
}

impl PendingTable {
    /// No author appears twice.
    pub closed spec fn wf(&self) -> bool {
        unique_authors(self.entries@)
    }

    /// Pending text by author.
    pub closed spec fn view(&self) -> Map<Seq<char>, Seq<char>> {
        table_of(self.entries@)
    }

    pub fn new() -> (t: PendingTable)
        ensures
            t.wf(),
            t@ == Map::<Seq<char>, Seq<char>>::empty(),
    {
        let t = PendingTable { entries: Vec::new() };
        assert(t@ =~= Map::<Seq<char>, Seq<char>>::empty());
        t
    }

    /// How many authors have text pending.
    pub fn len(&self) -> (n: usize)
        requires
            self.wf(),
        ensures
            n == self@.len(),
    {
        proof {
            lemma_table(self.entries@);
            let authors = self.entries@.map_values(|e: PendingEntry| e.author@);
            assert(authors.no_duplicates()) by {
                assert forall|i: int, j: int|
                    0 <= i < authors.len() && 0 <= j < authors.len() && i != j implies authors[i]
                    != authors[j] by {
                    if i < j {
                        assert(self.entries@[i].author@ != self.entries@[j].author@);
                    } else {
                        assert(self.entries@[j].author@ != self.entries@[i].author@);
                    }
                }
            }
            assert forall|a: Seq<char>| self@.contains_key(a) <==> authors.contains(a) by {
                if self@.contains_key(a) {
                    let i = choose|i: int| holds_author(self.entries@, i, a);
                    assert(authors[i] == a);
                }
                if authors.contains(a) {
                    let i = choose|i: int| 0 <= i < authors.len() && authors[i] == a;
                    assert(holds_author(self.entries@, i, a));
                }
            }
            assert(self@.dom() =~= authors.to_set());
            authors.unique_seq_to_set();
        }
        self.entries.len()
    }

    fn find(&self, author: &String) -> (r: Option<usize>)
        requires
            self.wf(),
        ensures
            match r {
                Some(i) => i < self.entries@.len() && self.entries@[i as int].author@ == author@,
                None => !self@.contains_key(author@),
            },
    {
        let mut i: usize = 0;
        while i < self.entries.len()
            invariant
                i <= self.entries@.len(),
                forall|j: int| 0 <= j < i ==> self.entries@[j].author@ != author@,
            decreases self.entries@.len() - i,
        {
            if self.entries[i].author == *author {
                return Some(i);
            }
            i = i + 1;
        }
        proof {
            lemma_table(self.entries@);
        }
        None
    }

    /// Feeds one fragment into the table; returns the record that it
    /// completes, if it is a final fragment.
    pub fn ingest(&mut self, f: Fragment) -> (r: Option<Record>)
        requires
            old(self).wf(),
        ensures
            final(self).wf(),
            (final(self)@, record_model(r)) == ingest_spec(old(self)@, f@),
    {
        proof {
            lemma_table(self.entries@);
        }
        let ghost before = self@;
        let ghost prev = self.entries@;
        let ghost fm = f@;
        match self.find(&f.author) {
            Some(i) => {
                proof {
                    lemma_table_at(self.entries@, i as int);
                }
                if f.continues {
                    let mut text = self.entries[i].text.clone();
                    text.append(f.text.as_str());
                    self.entries.set(i, PendingEntry { author: f.author, text });
                    proof {
                        let es = self.entries@;
                        assert(unique_authors(es)) by {
                            assert forall|j: int, k: int| 0 <= j < k < es.len() implies es[j].author@
                                != es[k].author@ by {
                                assert(prev[j].author@ != prev[k].author@);
                            }
                        }
                        lemma_table(es);
                        let expected = before.insert(fm.author, before[fm.author] + fm.text);
                        assert forall|a: Seq<char>|
                            #![trigger expected.contains_key(a)]
                            self@.contains_key(a) == expected.contains_key(a) && (
                            self@.contains_key(a) ==> self@[a] == expected[a]) by {
                            if a != fm.author {
                                if self@.contains_key(a) {
                                    let j = choose|j: int| holds_author(es, j, a);
                                    assert(holds_author(prev, j, a));
                                }
                                if before.contains_key(a) {
                                    let j = choose|j: int| holds_author(prev, j, a);
                                    assert(holds_author(es, j, a));
                                }
                            } else {
                                assert(es[i as int].author@ == a);
                            }
                        }
                        assert(self@ =~= expected);
                    }
                    None
                } else {
                    let e = self.entries.remove(i);
                    let mut body = e.text;
                    body.append(f.text.as_str());
                    proof {
                        let es = self.entries@;
                        assert(unique_authors(es)) by {
                            assert forall|j: int, k: int| 0 <= j < k < es.len() implies es[j].author@
                                != es[k].author@ by {
                                if k < i {
                                    assert(prev[j].author@ != prev[k].author@);
                                } else if j < i {
                                    assert(prev[j].author@ != prev[k + 1].author@);
                                } else {
                                    assert(prev[j + 1].author@ != prev[k + 1].author@);
                                }
                            }
                        }
                        lemma_table(es);
                        let expected = before.remove(fm.author);
                        assert forall|a: Seq<char>|
                            #![trigger expected.contains_key(a)]
                            self@.contains_key(a) == expected.contains_key(a) && (
                            self@.contains_key(a) ==> self@[a] == expected[a]) by {
                            if self@.contains_key(a) {
                                let j = choose|j: int| holds_author(es, j, a);
                                if j < i {
                                    assert(holds_author(prev, j, a));
                                    assert(prev[j].author@ != prev[i as int].author@);
                                } else {
                                    assert(holds_author(prev, j + 1, a));
                                    assert(prev[i as int].author@ != prev[j + 1].author@);
                                }
                            }
                            if expected.contains_key(a) {
                                let j = choose|j: int| holds_author(prev, j, a);
                                if j < i {
                                    assert(holds_author(es, j, a));
                                } else {
                                    assert(j != i);
                                    assert(holds_author(es, j - 1, a));
                                }
                            }
                        }
                        assert(self@ =~= expected);
                    }
                    Some(Record { author: f.author, body })
                }
            },
            None => {
                if f.continues {
                    self.entries.push(PendingEntry { author: f.author, text: f.text });
                    proof {
                        let es = self.entries@;
                        assert(unique_authors(es)) by {
                            assert forall|j: int, k: int| 0 <= j < k < es.len() implies es[j].author@
                                != es[k].author@ by {
                                if k < prev.len() {
                                    assert(prev[j].author@ != prev[k].author@);
                                } else {
                                    assert(holds_author(prev, j, es[j].author@));
                                }
                            }
                        }
                        lemma_table(es);
                        let expected = before.insert(fm.author, fm.text);
                        assert forall|a: Seq<char>|
                            #![trigger expected.contains_key(a)]
                            self@.contains_key(a) == expected.contains_key(a) && (
                            self@.contains_key(a) ==> self@[a] == expected[a]) by {
                            if a != fm.author {
                                if self@.contains_key(a) {
                                    let j = choose|j: int| holds_author(es, j, a);
                                    assert(holds_author(prev, j, a));
                                }
                                if before.contains_key(a) {
                                    let j = choose|j: int| holds_author(prev, j, a);
                                    assert(holds_author(es, j, a));
                                }
                            } else {
                                assert(es[prev.len() as int].author@ == a);
                            }
                        }
                        assert(self@ =~= expected);
                    }
                    None
                } else {
                    proof {
                        assert(before.remove(fm.author) =~= before);
                    }
                    Some(Record { author: f.author, body: f.text })
                }
            },
        }
    }
}

/// What one read of the transport gave.
pub enum ReadOutcome {
    /// One physical line.
    Line(String),
    /// The transport ended or failed to read.
    Ended,
}

/// What the ingestion loop does next.
pub enum LoopAction {
    /// Hand this complete record to the distribution channel, then read on.
    Submit(Record),
    /// Nothing is complete yet: read on.
    ReadOn,
    /// The transport is done: stop and close the channel.
    Stop,
}

/// The ingestion side of a session: turns wire lines, in the order they
/// arrive, into complete records. It alone owns the pending table.
pub struct Ingestor {
    table: PendingTable,
}

impl Ingestor {
    pub closed spec fn wf(&self) -> bool {
        self.table.wf()
    }

    /// Pending text by author.
    pub closed spec fn view(&self) -> Map<Seq<char>, Seq<char>> {
        self.table@
    }

    pub fn new() -> (s: Ingestor)
        ensures
            s.wf(),
            s@ == Map::<Seq<char>, Seq<char>>::empty(),
    {
        Ingestor { table: PendingTable::new() }
    }

    /// Parses one wire line and feeds it to the pending table; returns the
    /// record that the line completes, if any.
    pub fn accept_line(&mut self, line: &str) -> (r: Option<Record>)
        requires
            old(self).wf(),
        ensures
            final(self).wf(),
            (final(self)@, record_model(r)) == ingest_spec(old(self)@, parse_spec(line@)),
    {
        let f = parse(line);
        self.table.ingest(f)
    }

    /// Decides what the ingestion loop does after one read of the transport.
    ///
    /// A line goes through the parser and the pending table; a record that
    /// it completes is submitted. The end of the transport, or a failed
    /// read, stops the loop and leaves the table as it was.
    pub fn on_read(&mut self, outcome: ReadOutcome) -> (a: LoopAction)
        requires
            old(self).wf(),
        ensures
            final(self).wf(),
            match outcome {
                ReadOutcome::Line(line) => {
                    let (table, done) = ingest_spec(old(self)@, parse_spec(line@));
                    &&& final(self)@ == table
                    &&& match done {
                        Some(rec) => a matches LoopAction::Submit(r) && r@ == rec,
                        None => a is ReadOn,
                    }
                },
                ReadOutcome::Ended => final(self)@ == old(self)@ && a is Stop,
            },
    {
        match outcome {
            ReadOutcome::Line(line) => match self.accept_line(line.as_str()) {
                Some(r) => LoopAction::Submit(r),
                None => LoopAction::ReadOn,
            },
            ReadOutcome::Ended => LoopAction::Stop,
        }
    }

    /// How many authors have a message that is not complete yet.
    pub fn pending_count(&self) -> (n: usize)
        requires
            self.wf(),
        ensures
            n == self@.len(),
    {
        self.table.len()
    }
}

} // verus!
