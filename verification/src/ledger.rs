//! The client-local integrity ledger: a persisted mapping from filename hash
//! to content hash, used to detect store-side tampering across sessions.
//!
//! The ledger file is flat text, one line per entry: the two hashes as
//! whitespace-separated tokens. `render` produces that text and `parse` reads
//! it back; a missing file is an empty ledger.

use vstd::prelude::*;
use vstd::string::{StrSliceExecFns, StringExecFns};
use crate::kvseq::{entries_map, has_key, lemma_entries_map_has_key, lemma_entries_map_remove,
    lemma_unique_value, unique_keys};
use crate::obfuscate::{get_hash, hash_of, hashable, lemma_hash_token};
use crate::text::{find_char, is_token_char, is_token_str, token};

verus! {

/// What comparing fetched content against the ledger can say.
#[derive(Debug, PartialEq, Eq, Clone, Copy)]
pub enum VerifyOutcome {
    /// A prior entry exists and the content hash agrees.
    Match,
    /// A prior entry exists and the content hash differs: possible tampering.
    Mismatch,
    /// No prior entry: the first-ever fetch of this filename.
    Unknown,
}

/// What `record_if_absent` does to the ledger's mapping.
pub open spec fn record_if_absent_spec(
    m: Map<Seq<char>, Seq<char>>,
    k: Seq<char>,
    v: Seq<char>,
) -> Map<Seq<char>, Seq<char>> {
    if m.dom().contains(k) {
        m
    } else {
        m.insert(k, v)
    }
}

/// Recording is idempotent: once a filename has an entry, recording any
/// further content for it leaves the ledger unchanged, so only the first
/// content's hash is kept.
pub proof fn lemma_record_if_absent_idempotent(
    m: Map<Seq<char>, Seq<char>>,
    k: Seq<char>,
    v1: Seq<char>,
    v2: Seq<char>,
)
    ensures
        record_if_absent_spec(record_if_absent_spec(m, k, v1), k, v2) == record_if_absent_spec(
            m,
            k,
            v1,
        ),
        !m.dom().contains(k) ==> record_if_absent_spec(m, k, v1)[k] == v1,
{
}

/// What comparing `content` for `file_name` against mapping `m` must say.
pub open spec fn verify_outcome_spec(
    m: Map<Seq<char>, Seq<char>>,
    file_name: Seq<char>,
    content: Seq<char>,
) -> VerifyOutcome {
    if !m.dom().contains(hash_of(file_name)) {
        VerifyOutcome::Unknown
    } else if m[hash_of(file_name)] == hash_of(content) {
        VerifyOutcome::Match
    } else {
        VerifyOutcome::Mismatch
    }
}

/// One line of the rendered ledger file per entry, two tokens separated by a
/// space.
pub open spec fn render_seq(s: Seq<(String, String)>) -> Seq<char>
    decreases s.len(),
{
    if s.len() == 0 {
        Seq::empty()
    } else {
        render_seq(s.drop_last()) + s.last().0@ + seq![' '] + s.last().1@ + seq!['\n']
    }
}

/// Entries whose keys and values can stand in a rendered line.
pub open spec fn wf_lines(s: Seq<(String, String)>) -> bool {
    forall|j: int| 0 <= j < s.len() ==> token((#[trigger] s[j]).0@) && token(s[j].1@)
}

/// The map after inserting a pair sequence into `m0`, in order.
pub open spec fn extend_map(
    m0: Map<Seq<char>, Seq<char>>,
    s: Seq<(String, String)>,
) -> Map<Seq<char>, Seq<char>>
    decreases s.len(),
{
    if s.len() == 0 {
        m0
    } else {
        extend_map(m0, s.drop_last()).insert(s.last().0@, s.last().1@)
    }
}

proof fn lemma_extend_entries(s: Seq<(String, String)>)
    ensures
        extend_map(Map::empty(), s) == entries_map(s),
    decreases s.len(),
{
    if s.len() > 0 {
        lemma_extend_entries(s.drop_last());
    }
}

proof fn lemma_extend_front(m0: Map<Seq<char>, Seq<char>>, s: Seq<(String, String)>)
    requires
        s.len() > 0,
    ensures
        extend_map(m0, s) == extend_map(m0.insert(s[0].0@, s[0].1@), s.drop_first()),
    decreases s.len(),
{
    if s.len() == 1 {
        assert(s.drop_last() =~= Seq::<(String, String)>::empty());
        assert(s.drop_first() =~= Seq::<(String, String)>::empty());
        assert(s.last() == s[0]);
        assert(extend_map(m0, s.drop_last()) == m0);
        assert(extend_map(m0, s) == m0.insert(s[0].0@, s[0].1@));
        assert(extend_map(m0.insert(s[0].0@, s[0].1@), s.drop_first()) == m0.insert(
            s[0].0@,
            s[0].1@,
        ));
    } else {
        lemma_extend_front(m0, s.drop_last());
        assert(s.drop_last()[0] == s[0]);
        assert(s.drop_last().drop_first() =~= s.drop_first().drop_last());
        assert(s.drop_first().last() == s.last());
        assert(s.drop_first().len() > 0);
        let m1 = m0.insert(s[0].0@, s[0].1@);
        assert(m0.insert(s.drop_last()[0].0@, s.drop_last()[0].1@) == m1);
        assert(s.drop_last().drop_first() == s.drop_first().drop_last());
        assert(extend_map(m0, s.drop_last()) == extend_map(m1, s.drop_first().drop_last()));
        assert(extend_map(m1, s.drop_first()) == extend_map(
            m1,
            s.drop_first().drop_last(),
        ).insert(s.drop_first().last().0@, s.drop_first().last().1@));
        assert(extend_map(m0, s) == extend_map(m0, s.drop_last()).insert(
            s.last().0@,
            s.last().1@,
        ));
    }
}

/// The one-line rendering of a single entry.
spec fn line_of(e: (String, String)) -> Seq<char> {
    e.0@ + seq![' '] + e.1@ + seq!['\n']
}

proof fn lemma_render_front(s: Seq<(String, String)>)
    requires
        s.len() > 0,
    ensures
        render_seq(s) == line_of(s[0]) + render_seq(s.drop_first()),
    decreases s.len(),
{
    if s.len() == 1 {
        assert(s.drop_last() =~= Seq::<(String, String)>::empty());
        assert(s.drop_first() =~= Seq::<(String, String)>::empty());
        assert(s.last() == s[0]);
        assert(render_seq(s) =~= line_of(s[0]) + render_seq(s.drop_first()));
    } else {
        lemma_render_front(s.drop_last());
        assert(s.drop_last()[0] == s[0]);
        assert(s.drop_last().drop_first() =~= s.drop_first().drop_last());
        assert(s.drop_first().last() == s.last());
        assert(s.drop_first().len() > 0);
        assert(render_seq(s.drop_first()) == render_seq(s.drop_first().drop_last()) + s.last().0@
            + seq![' '] + s.last().1@ + seq!['\n']);
        assert(render_seq(s) =~= line_of(s[0]) + render_seq(s.drop_first()));
    }
}

/// The integrity ledger: filename hash to content hash, one entry per
/// filename.
pub struct Ledger {
    entries: Vec<(String, String)>,
}

impl View for Ledger {
    type V = Map<Seq<char>, Seq<char>>;

    closed spec fn view(&self) -> Map<Seq<char>, Seq<char>> {
        entries_map(self.entries@)
    }
}

impl Ledger {
    /// One entry per key, and every key and value a token, so the rendered
    /// file reads back unambiguously.
    pub closed spec fn inv(&self) -> bool {
        unique_keys(self.entries@) && (forall|j: int|
            0 <= j < self.entries@.len() ==> token((#[trigger] self.entries@[j]).0@) && token(
                self.entries@[j].1@,
            ))
    }

    /// The entries in rendering order.
    pub closed spec fn lines(&self) -> Seq<(String, String)> {
        self.entries@
    }

    /// An empty ledger.
    pub fn new() -> (r: Ledger)
        ensures
            r@ == Map::<Seq<char>, Seq<char>>::empty(),
            r.inv(),
    {
        Ledger { entries: Vec::new() }
    }

    /// Index of the entry carrying `key`, if any.
    fn find_idx(&self, key: &String) -> (r: Option<usize>)
        ensures
            r matches Some(i) ==> i < self.entries@.len() && self.entries@[i as int].0@ == key@,
            r is None ==> forall|j: int|
                0 <= j < self.entries@.len() ==> (#[trigger] self.entries@[j]).0@ != key@,
    {
        let n = self.entries.len();
        let mut i: usize = 0;
        while i < n
            invariant
                i <= n,
                n == self.entries@.len(),
                forall|j: int| 0 <= j < i ==> (#[trigger] self.entries@[j]).0@ != key@,
            decreases n - i,
        {
            if self.entries[i].0.eq(key) {
                return Some(i);
            }
            i += 1;
        }
        None
    }

    /// Inserts or replaces the entry for `key`: the last writer wins.
    fn upsert(&mut self, key: String, value: String)
        requires
            old(self).inv(),
            token(key@),
            token(value@),
        ensures
            final (self).inv(),
            final (self)@ == old(self)@.insert(key@, value@),
            final (self)@.dom().contains(key@),
    {
        let ghost k = key@;
        let ghost v = value@;
        match self.find_idx(&key) {
            Some(i) => {
                let ghost before = self.entries@;
                proof {
                    lemma_entries_map_remove(before, i as int);
                }
                self.entries.remove(i);
                let ghost removed = self.entries@;
                self.entries.push((key, value));
                proof {
                    assert(self.entries@.drop_last() =~= removed);
                    assert(entries_map(self.entries@) == entries_map(removed).insert(k, v));
                    assert(entries_map(removed).insert(k, v) =~= entries_map(before).insert(k, v));
                    assert forall|a: int, b: int| 0 <= a < b < self.entries@.len() implies (
                    #[trigger] self.entries@[a]).0@ != (#[trigger] self.entries@[b]).0@ by {
                        if b == self.entries@.len() - 1 {
                            assert(self.entries@[a] == removed[a]);
                            assert(removed[a].0@ != k);
                        } else {
                            assert(self.entries@[a] == removed[a] && self.entries@[b]
                                == removed[b]);
                        }
                    }
                    assert forall|j: int| 0 <= j < self.entries@.len() implies token(
                        (#[trigger] self.entries@[j]).0@,
                    ) && token(self.entries@[j].1@) by {
                        if j < self.entries@.len() - 1 {
                            assert(self.entries@[j] == removed[j]);
                            let oj: int = if j < i {
                                j
                            } else {
                                j + 1
                            };
                            assert(removed[j] == before[oj]);
                        }
                    }
                }
            },
            None => {
                let ghost before = self.entries@;
                self.entries.push((key, value));
                proof {
                    assert(self.entries@.drop_last() =~= before);
                    assert forall|a: int, b: int| 0 <= a < b < self.entries@.len() implies (
                    #[trigger] self.entries@[a]).0@ != (#[trigger] self.entries@[b]).0@ by {
                        if b == self.entries@.len() - 1 {
                            assert(self.entries@[a] == before[a]);
                        } else {
                            assert(self.entries@[a] == before[a] && self.entries@[b] == before[b]);
                        }
                    }
                    assert forall|j: int| 0 <= j < self.entries@.len() implies token(
                        (#[trigger] self.entries@[j]).0@,
                    ) && token(self.entries@[j].1@) by {
                        if j < self.entries@.len() - 1 {
                            assert(self.entries@[j] == before[j]);
                        }
                    }
                }
            },
        }
    }

    /// Records hash(filename) → hash(content) unconditionally: on a put, the
    /// local author is the ground truth.
    pub fn record(&mut self, file_name: &str, content: &str)
        requires
            old(self).inv(),
            hashable(file_name@),
            hashable(content@),
        ensures
            final (self).inv(),
            final (self)@ == old(self)@.insert(hash_of(file_name@), hash_of(content@)),
    {
        let key = get_hash(file_name);
        let value = get_hash(content);
        proof {
            lemma_hash_token(file_name@);
            lemma_hash_token(content@);
        }
        self.upsert(key, value);
    }

    /// Records hash(filename) → hash(content) only when the filename has no
    /// entry yet; an existing entry is left untouched.
    pub fn record_if_absent(&mut self, file_name: &str, content: &str)
        requires
            old(self).inv(),
            hashable(file_name@),
            hashable(content@),
        ensures
            final (self).inv(),
            final (self)@ == record_if_absent_spec(
                old(self)@,
                hash_of(file_name@),
                hash_of(content@),
            ),
    {
        let key = get_hash(file_name);
        let ghost k = key@;
        proof {
            lemma_hash_token(file_name@);
            lemma_hash_token(content@);
            lemma_entries_map_has_key(self.entries@, k);
        }
        match self.find_idx(&key) {
            Some(_) => {
                proof {
                    assert(has_key(self.entries@, k));
                }
            },
            None => {
                let value = get_hash(content);
                let ghost before = self.entries@;
                self.entries.push((key, value));
                proof {
                    assert(!has_key(before, k));
                    assert(self.entries@.drop_last() =~= before);
                    assert forall|a: int, b: int| 0 <= a < b < self.entries@.len() implies (
                    #[trigger] self.entries@[a]).0@ != (#[trigger] self.entries@[b]).0@ by {
                        if b == self.entries@.len() - 1 {
                            assert(self.entries@[a] == before[a]);
                        } else {
                            assert(self.entries@[a] == before[a] && self.entries@[b] == before[b]);
                        }
                    }
                    assert forall|j: int| 0 <= j < self.entries@.len() implies token(
                        (#[trigger] self.entries@[j]).0@,
                    ) && token(self.entries@[j].1@) by {
                        if j < self.entries@.len() - 1 {
                            assert(self.entries@[j] == before[j]);
                        }
                    }
                }
            },
        }
    }

    /// Compares fetched content against the recorded hash for a filename:
    /// `Match` or `Mismatch` against a prior entry, `Unknown` when the
    /// filename was never recorded.
    pub fn check_content(&self, file_name: &str, content: &str) -> (r: VerifyOutcome)
        requires
            self.inv(),
            hashable(file_name@),
            hashable(content@),
        ensures
            r == verify_outcome_spec(self@, file_name@, content@),
    {
        let key = get_hash(file_name);
        let ghost k = key@;
        proof {
            lemma_entries_map_has_key(self.entries@, k);
        }
        match self.find_idx(&key) {
            Some(i) => {
                proof {
                    lemma_unique_value(self.entries@, i as int);
                }
                let value = get_hash(content);
                if self.entries[i].1.eq(&value) {
                    VerifyOutcome::Match
                } else {
                    VerifyOutcome::Mismatch
                }
            },
            None => {
                proof {
                    assert(!has_key(self.entries@, k));
                }
                VerifyOutcome::Unknown
            },
        }
    }

    /// Renders the ledger as flat text, one line per entry.
    pub fn render(&self) -> (r: String)
        ensures
            r@ == render_seq(self.lines()),
    {
        proof {
            reveal_strlit(" ");
            reveal_strlit("\n");
        }
        let mut r = String::new();
        let n = self.entries.len();
        let mut i: usize = 0;
        while i < n
            invariant
                i <= n,
                n == self.entries@.len(),
                r@ == render_seq(self.entries@.take(i as int)),
                " "@ == seq![' '],
                "\n"@ == seq!['\n'],
            decreases n - i,
        {
            r.append(self.entries[i].0.as_str());
            r.append(" ");
            r.append(self.entries[i].1.as_str());
            r.append("\n");
            proof {
                assert(self.entries@.take(i + 1 as int).drop_last() =~= self.entries@.take(
                    i as int,
                ));
                assert(self.entries@.take(i + 1 as int).last() == self.entries@[i as int]);
                assert(r@ =~= render_seq(self.entries@.take(i + 1 as int)));
            }
            i += 1;
        }
        proof {
            assert(self.entries@.take(n as int) =~= self.entries@);
        }
        r
    }

    /// Reads a ledger back from rendered text: lines of two space-separated
    /// tokens, later lines overriding earlier ones. Returns `None` on any
    /// malformed line; at startup that is fatal, since the session cannot
    /// safely proceed without its ledger. Whatever `render` produced parses
    /// back to the same mapping: the file format round-trips.
    pub fn parse(text: &str) -> (r: Option<Ledger>)
        ensures
            r matches Some(l) ==> l.inv(),
            forall|s: Seq<(String, String)>|
                (wf_lines(s) && text@ == #[trigger] render_seq(s)) ==> (r matches Some(l) && l@
                    == entries_map(s)),
    {
        let mut l = Ledger::new();
        proof {
            assert(text@.skip(0) =~= text@);
        }
        if parse_into(&mut l, text, 0) {
            proof {
                assert forall|s: Seq<(String, String)>|
                    wf_lines(s) && text@ == #[trigger] render_seq(s) implies l@ == entries_map(
                    s,
                ) by {
                    lemma_extend_entries(s);
                }
            }
            Some(l)
        } else {
            None
        }
    }
}

/// The character-level shape of the first rendered line: the key up to the
/// first space, the value up to the first newline, and the remaining text the
/// rendering of the remaining entries.
proof fn lemma_line_shape(text: Seq<char>, pos: int, s: Seq<(String, String)>)
    requires
        0 <= pos <= text.len(),
        s.len() > 0,
        wf_lines(s),
        text.skip(pos) == render_seq(s),
    ensures
        ({
            let k0 = s[0].0@;
            let v0 = s[0].1@;
            let e = pos + k0.len() + 1 + v0.len();
            &&& e < text.len()
            &&& text[e] == '\n'
            &&& forall|j: int| pos <= j < e ==> text[j] != '\n'
            &&& text[pos + k0.len() as int] == ' '
            &&& forall|j: int| pos <= j < pos + k0.len() ==> text[j] != ' '
            &&& text.subrange(pos, pos + k0.len() as int) == k0
            &&& text.subrange(pos + k0.len() + 1, e) == v0
            &&& text.skip(e + 1) == render_seq(s.drop_first())
        }),
{
    lemma_render_front(s);
    let k0 = s[0].0@;
    let v0 = s[0].1@;
    let e = pos + k0.len() + 1 + v0.len();
    let rest = render_seq(s.drop_first());
    let line = line_of(s[0]);
    assert(text.skip(pos) == line + rest);
    assert(line.len() == k0.len() + 1 + v0.len() + 1);
    assert(text.skip(pos).len() == text.len() - pos);
    assert((line + rest).len() == line.len() + rest.len());
    assert(text.len() == pos + line.len() + rest.len());
    assert(token(k0) && token(v0));
    assert forall|i: int| 0 <= i < text.skip(pos).len() implies text[pos + i] == text.skip(pos)[i]
        by {}
    assert forall|j: int| pos <= j < e implies text[j] != '\n' by {
        if j - pos < k0.len() {
            assert(text.skip(pos)[j - pos] == k0[j - pos]);
            assert(is_token_char(k0[j - pos]));
        } else if j - pos == k0.len() {
            assert(text.skip(pos)[j - pos] == ' ');
        } else {
            assert(text.skip(pos)[j - pos] == v0[j - pos - k0.len() - 1]);
            assert(is_token_char(v0[j - pos - k0.len() - 1]));
        }
    }
    assert forall|j: int| pos <= j < pos + k0.len() implies text[j] != ' ' by {
        assert(text.skip(pos)[j - pos] == k0[j - pos]);
        assert(is_token_char(k0[j - pos]));
    }
    assert(text.skip(pos)[e - pos] == '\n');
    assert(text.skip(pos)[k0.len() as int] == ' ');
    assert(text[pos + k0.len() as int] == ' ');
    assert forall|i: int| 0 <= i < k0.len() implies text.subrange(pos, pos + k0.len() as int)[i]
        == k0[i] by {
        assert(text.subrange(pos, pos + k0.len() as int)[i] == text[pos + i]);
        assert(text[pos + i] == text.skip(pos)[i]);
        assert(text.skip(pos)[i] == k0[i]);
    }
    assert(text.subrange(pos, pos + k0.len() as int) =~= k0);
    assert forall|i: int| 0 <= i < v0.len() implies text.subrange(pos + k0.len() + 1, e)[i]
        == v0[i] by {
        assert(text.subrange(pos + k0.len() + 1, e)[i] == text[pos + k0.len() + 1 + i]);
        assert(text[pos + k0.len() + 1 + i] == text.skip(pos)[k0.len() + 1 + i]);
        assert(text.skip(pos)[k0.len() + 1 + i] == v0[i]);
    }
    assert(text.subrange(pos + k0.len() + 1, e) =~= v0);
    assert forall|i: int| 0 <= i < rest.len() implies text.skip(e + 1)[i] == rest[i] by {
        assert(text.skip(pos)[e + 1 - pos + i] == rest[i]);
        assert(text.skip(e + 1)[i] == text[e + 1 + i]);
    }
    assert(text.skip(e + 1) =~= rest);
}

/// Parses rendered lines from `pos` on into `l`, returning whether the whole
/// remainder was well-formed. On the rendering of any entry sequence it
/// succeeds and extends the mapping with exactly those entries, in order.
fn parse_into(l: &mut Ledger, text: &str, pos: usize) -> (r: bool)
    requires
        old(l).inv(),
        pos <= text@.len(),
    ensures
        final (l).inv(),
        forall|s: Seq<(String, String)>|
            (wf_lines(s) && text@.skip(pos as int) == #[trigger] render_seq(s)) ==> (r
                && final (l)@ == extend_map(old(l)@, s)),
    decreases text@.len() - pos,
{
    let n = text.unicode_len();
    if pos == n {
        proof {
            assert(text@.skip(pos as int) =~= Seq::<char>::empty());
            assert forall|s: Seq<(String, String)>|
                wf_lines(s) && text@.skip(pos as int) == #[trigger] render_seq(s) implies l@
                == extend_map(l@, s) && s.len() == 0 by {
                if s.len() > 0 {
                    assert(render_seq(s).len() > 0);
                }
            }
        }
        return true;
    }
    let e = match find_char(text, '\n', pos) {
        Some(e) => e,
        None => {
            proof {
                assert forall|s: Seq<(String, String)>|
                    wf_lines(s) && text@.skip(pos as int) == #[trigger] render_seq(s)
                    implies false by {
                    if s.len() == 0 {
                        assert(text@.skip(pos as int).len() == 0);
                    }
                    assert(s.len() > 0);
                    lemma_line_shape(text@, pos as int, s);
                }
            }
            return false;
        },
    };
    let sp = match find_char(text, ' ', pos) {
        Some(sp) => sp,
        None => {
            proof {
                assert forall|s: Seq<(String, String)>|
                    wf_lines(s) && text@.skip(pos as int) == #[trigger] render_seq(s)
                    implies false by {
                    if s.len() == 0 {
                        assert(text@.skip(pos as int).len() == 0);
                    }
                    assert(s.len() > 0);
                    lemma_line_shape(text@, pos as int, s);
                }
            }
            return false;
        },
    };
    if sp >= e {
        proof {
            assert forall|s: Seq<(String, String)>|
                wf_lines(s) && text@.skip(pos as int) == #[trigger] render_seq(s) implies false by {
                if s.len() == 0 {
                    assert(text@.skip(pos as int).len() == 0);
                }
                assert(s.len() > 0);
                lemma_line_shape(text@, pos as int, s);
            }
        }
        return false;
    }
    let key = text.substring_char(pos, sp).to_owned();
    let value = text.substring_char(sp + 1, e).to_owned();
    if !is_token_str(key.as_str()) || !is_token_str(value.as_str()) {
        proof {
            assert forall|s: Seq<(String, String)>|
                wf_lines(s) && text@.skip(pos as int) == #[trigger] render_seq(s) implies false by {
                if s.len() == 0 {
                    assert(text@.skip(pos as int).len() == 0);
                }
                assert(s.len() > 0);
                lemma_line_shape(text@, pos as int, s);
            }
        }
        return false;
    }
    let ghost m0 = l@;
    l.upsert(key, value);
    let ghost mid = l@;
    let ok = parse_into(l, text, e + 1);
    proof {
        assert forall|s: Seq<(String, String)>|
            wf_lines(s) && text@.skip(pos as int) == #[trigger] render_seq(s) implies (ok && l@
            == extend_map(m0, s)) by {
            if s.len() == 0 {
                assert(text@.skip(pos as int).len() == 0);
            }
            assert(s.len() > 0);
            lemma_line_shape(text@, pos as int, s);
            assert(key@ == s[0].0@ && value@ == s[0].1@);
            assert(mid == m0.insert(s[0].0@, s[0].1@));
            assert forall|j: int| 0 <= j < s.drop_first().len() implies token(
                (#[trigger] s.drop_first()[j]).0@,
            ) && token(s.drop_first()[j].1@) by {
                assert(s.drop_first()[j] == s[j + 1]);
            }
            assert(text@.skip((e + 1) as int) == render_seq(s.drop_first()));
            lemma_extend_front(m0, s);
        }
    }
    ok
}

} // verus!
