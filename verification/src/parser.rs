//! Reads a textual dump of session-graph nodes into a snapshot of the
//! streams that match a filter.
//!
//! The dump is a sequence of records. A record begins with a line that
//! starts with `id ` and carries the node's identifier up to the first
//! comma; the lines after it, up to the next such line, carry the node's
//! properties as `key = "value"`. Two properties are read: the node's name
//! and its media class. The value is all that follows the `=`, so it may
//! hold `=` itself.

use crate::snapshot::Snapshot;
use crate::text::{
    after_first, before_first, chars_of, find_char, first_index, lemma_first_index, parse_u32, parsed_u32, same_text, starts_with, strip, stripped, trim,
    trimmed, CharClass,
};
use vstd::prelude::*;
use vstd::slice::slice_to_vec;

verus! {

/// What one line of the dump says, once white space is trimmed from its ends.
#[derive(Debug, PartialEq, Eq)]
pub enum Line {
    /// The first line of a record, with the node's identifier if it is a number.
    Boundary(Option<u32>),
    /// The node's name.
    Name(Vec<char>),
    /// The node's media class.
    MediaClass(Vec<char>),
    /// Any other line.
    Other,
}

/// The mathematical content of a `Line`.
pub enum LineView {
    Boundary(Option<u32>),
    Name(Seq<char>),
    MediaClass(Seq<char>),
    Other,
}

impl View for Line {
    type V = LineView;

    open spec fn view(&self) -> LineView {
        match self {
            Line::Boundary(id) => LineView::Boundary(*id),
            Line::Name(v) => LineView::Name(v@),
            Line::MediaClass(v) => LineView::MediaClass(v@),
            Line::Other => LineView::Other,
        }
    }
}

/// The identifier on a boundary line: the number between the marker and the
/// first comma, white space aside.
pub open spec fn boundary_id(line: Seq<char>) -> Option<u32> {
    parsed_u32(trimmed(before_first(line, ',').skip("id "@.len() as int)))
}

/// The value on a property line: all that follows the line's first `=`,
/// without white space and then without quotes at its ends. The value may
/// itself hold `=`.
pub open spec fn property_value(line: Seq<char>) -> Seq<char> {
    stripped(trimmed(after_first(line, '=')), CharClass::Quote)
}

/// What a trimmed line says. A line is told by how it begins: a boundary
/// begins with `id `, a property with its key and ` = `. A line that holds
/// such a text further on is a line of another kind.
pub open spec fn classify(line: Seq<char>) -> LineView {
    if "id "@.is_prefix_of(line) {
        LineView::Boundary(boundary_id(line))
    } else if "node.name = "@.is_prefix_of(line) {
        LineView::Name(property_value(line))
    } else if "media.class = "@.is_prefix_of(line) {
        LineView::MediaClass(property_value(line))
    } else {
        LineView::Other
    }
}

/// A line that begins with `key`, which holds `c` at `at`, holds `c`.
proof fn lemma_prefix_holds_char(line: Seq<char>, key: Seq<char>, c: char, at: int)
    requires
        key.is_prefix_of(line),
        0 <= at < key.len(),
        key[at] == c,
    ensures
        first_index(line, c) < line.len(),
{
    assert(line.subrange(0, key.len() as int)[at] == line[at]);
    lemma_first_index(line, c, at);
}

/// Reads the value of a property line.
fn read_property_value(line: &[char]) -> (v: Vec<char>)
    requires
        first_index(line@, '=') < line@.len(),
    ensures
        v@ == property_value(line@),
{
    let n = line.len();
    let eq = find_char(line, '=');
    let rest = &line[eq + 1..n];
    assert(rest@ =~= after_first(line@, '='));
    slice_to_vec(strip(trim(rest), CharClass::Quote))
}

/// The texts by which the lines of a dump are told apart, as characters.
struct Keys {
    marker: Vec<char>,
    name: Vec<char>,
    media_class: Vec<char>,
}

impl Keys {
    spec fn valid(&self) -> bool {
        &&& self.marker@ == "id "@
        &&& self.name@ == "node.name = "@
        &&& self.media_class@ == "media.class = "@
    }

    fn new() -> (keys: Keys)
        ensures
            keys.valid(),
    {
        Keys {
            marker: chars_of("id "),
            name: chars_of("node.name = "),
            media_class: chars_of("media.class = "),
        }
    }

    /// Reads a trimmed line of the dump.
    fn classify(&self, line: &[char]) -> (r: Line)
        requires
            self.valid(),
        ensures
            r@ == classify(line@),
    {
        proof {
            reveal_strlit("id ");
            reveal_strlit("node.name = ");
            reveal_strlit("media.class = ");
        }
        if starts_with(line, self.marker.as_slice()) {
            let comma = find_char(line, ',');
            proof {
                assert(line@.subrange(0, 3)[0] == line@[0]);
                assert(line@.subrange(0, 3)[1] == line@[1]);
                assert(line@.subrange(0, 3)[2] == line@[2]);
                if comma < 3 {
                    lemma_first_index(line@, ',', comma as int);
                }
            }
            let piece = &line[3..comma];
            assert(piece@ =~= before_first(line@, ',').skip(3));
            Line::Boundary(parse_u32(trim(piece)))
        } else if starts_with(line, self.name.as_slice()) {
            proof {
                lemma_prefix_holds_char(line@, "node.name = "@, '=', 10);
            }
            Line::Name(read_property_value(line))
        } else if starts_with(line, self.media_class.as_slice()) {
            proof {
                lemma_prefix_holds_char(line@, "media.class = "@, '=', 12);
            }
            Line::MediaClass(read_property_value(line))
        } else {
            Line::Other
        }
    }
}

/// Reads a trimmed line of the dump.
pub fn classify_line(line: &[char]) -> (r: Line)
    ensures
        r@ == classify(line@),
{
    Keys::new().classify(line)
}

/// The name and media class that a node must have to count as a matching stream.
#[derive(Debug, PartialEq, Eq)]
pub struct Filter {
    name: Vec<char>,
    media_class: Vec<char>,
}

/// The mathematical content of a `Filter`.
pub struct FilterView {
    pub name: Seq<char>,
    pub media_class: Seq<char>,
}

impl View for Filter {
    type V = FilterView;

    closed spec fn view(&self) -> FilterView {
        FilterView { name: self.name@, media_class: self.media_class@ }
    }
}

impl Filter {
    /// The filter for nodes called `name` of the class `media_class`.
    pub fn new(name: &str, media_class: &str) -> (f: Filter)
        ensures
            f@ == (FilterView { name: name@, media_class: media_class@ }),
    {
        Filter { name: chars_of(name), media_class: chars_of(media_class) }
    }

    /// Decides whether a node is a matching stream.
    pub fn matches(&self, node: &StreamDescriptor) -> (b: bool)
        ensures
            b == is_match(self@, node@),
    {
        self.accepts(node.name.as_slice(), node.media_class.as_slice())
    }

    /// Decides whether `name` and `media_class` are the filter's.
    fn accepts(&self, name: &[char], media_class: &[char]) -> (b: bool)
        ensures
            b == (name@ == self@.name && media_class@ == self@.media_class),
    {
        same_text(name, self.name.as_slice()) && same_text(media_class, self.media_class.as_slice())
    }
}

/// What the dump tells of one node.
#[derive(Debug, PartialEq, Eq)]
pub struct StreamDescriptor {
    pub id: u32,
    pub name: Vec<char>,
    pub media_class: Vec<char>,
}

/// The mathematical content of a `StreamDescriptor`.
pub struct StreamDescriptorView {
    pub id: u32,
    pub name: Seq<char>,
    pub media_class: Seq<char>,
}

impl View for StreamDescriptor {
    type V = StreamDescriptorView;

    open spec fn view(&self) -> StreamDescriptorView {
        StreamDescriptorView { id: self.id, name: self.name@, media_class: self.media_class@ }
    }
}

/// A node is a matching stream when both its name and its media class are the filter's.
pub open spec fn is_match(f: FilterView, node: StreamDescriptorView) -> bool {
    node.name == f.name && node.media_class == f.media_class
}

/// The node that is being read: what the lines since the last boundary have told of it.
#[derive(Debug, PartialEq, Eq)]
pub struct Candidate {
    pub id: Option<u32>,
    pub name: Option<Vec<char>>,
    pub media_class: Option<Vec<char>>,
}

/// The mathematical content of a `Candidate`.
pub struct CandidateView {
    pub id: Option<u32>,
    pub name: Option<Seq<char>>,
    pub media_class: Option<Seq<char>>,
}

impl View for Candidate {
    type V = CandidateView;

    open spec fn view(&self) -> CandidateView {
        CandidateView {
            id: self.id,
            name: match self.name {
                Some(v) => Some(v@),
                None => None,
            },
            media_class: match self.media_class {
                Some(v) => Some(v@),
                None => None,
            },
        }
    }
}

/// The candidate of which nothing is known yet.
pub open spec fn blank() -> CandidateView {
    CandidateView { id: None, name: None, media_class: None }
}

/// The candidate after one more line: a boundary starts a new candidate
/// with nothing kept of the one before, a property replaces what was known
/// of that property, any other line changes nothing.
pub open spec fn advance(c: CandidateView, line: LineView) -> CandidateView {
    match line {
        LineView::Boundary(id) => CandidateView { id: id, name: None, media_class: None },
        LineView::Name(v) => CandidateView { name: Some(v), ..c },
        LineView::MediaClass(v) => CandidateView { media_class: Some(v), ..c },
        LineView::Other => c,
    }
}

/// The node that a candidate describes, once its identifier, name and
/// media class are all known.
pub open spec fn described(c: CandidateView) -> Option<StreamDescriptorView> {
    if c.id is Some && c.name is Some && c.media_class is Some {
        Some(StreamDescriptorView { id: c.id->0, name: c.name->0, media_class: c.media_class->0 })
    } else {
        None
    }
}

/// The identifier that a candidate contributes to the snapshot: its own,
/// if it is complete and matches the filter.
pub open spec fn emitted(c: CandidateView, f: FilterView) -> Option<u32> {
    match described(c) {
        Some(node) => if is_match(f, node) {
            Some(node.id)
        } else {
            None
        },
        None => None,
    }
}

impl Candidate {
    /// The candidate of which nothing is known yet.
    pub fn new() -> (c: Candidate)
        ensures
            c@ == blank(),
    {
        Candidate { id: None, name: None, media_class: None }
    }

    /// Takes in one more line.
    pub fn advance(&mut self, line: Line)
        ensures
            final(self)@ == advance(old(self)@, line@),
    {
        match line {
            Line::Boundary(id) => {
                self.id = id;
                self.name = None;
                self.media_class = None;
            },
            Line::Name(v) => {
                self.name = Some(v);
            },
            Line::MediaClass(v) => {
                self.media_class = Some(v);
            },
            Line::Other => {},
        }
    }

    /// The node that the candidate describes, once it is complete.
    pub fn descriptor(&self) -> (d: Option<StreamDescriptor>)
        ensures
            d is Some == described(self@) is Some,
            d matches Some(node) ==> Some(node@) == described(self@),
    {
        match (&self.id, &self.name, &self.media_class) {
            (Some(id), Some(name), Some(media_class)) => Some(
                StreamDescriptor {
                    id: *id,
                    name: slice_to_vec(name.as_slice()),
                    media_class: slice_to_vec(media_class.as_slice()),
                },
            ),
            _ => None,
        }
    }

    /// The identifier that the candidate contributes under `filter`.
    pub fn matching_id(&self, filter: &Filter) -> (id: Option<u32>)
        ensures
            id == emitted(self@, filter@),
    {
        match (&self.id, &self.name, &self.media_class) {
            (Some(id), Some(name), Some(media_class)) => if filter.accepts(
                name.as_slice(),
                media_class.as_slice(),
            ) {
                Some(*id)
            } else {
                None
            },
            _ => None,
        }
    }
}

/// The lines of a text: the pieces between line feeds. A line feed at the
/// very end of the text starts no further line.
pub open spec fn lines(text: Seq<char>) -> Seq<Seq<char>>
    decreases text.len(),
{
    if text.len() == 0 {
        Seq::empty()
    } else {
        proof {
            lemma_first_index(text, '\n', 0);
        }
        seq![before_first(text, '\n')] + lines(after_first(text, '\n'))
    }
}

/// What each line of a text says.
pub open spec fn line_kinds(text: Seq<char>) -> Seq<LineView> {
    lines(text).map_values(|l: Seq<char>| classify(trimmed(l)))
}

/// The candidate after the first `k` lines.
pub open spec fn candidate_after(kinds: Seq<LineView>, k: int) -> CandidateView
    decreases k,
{
    if k <= 0 {
        blank()
    } else {
        advance(candidate_after(kinds, k - 1), kinds[k - 1])
    }
}

/// The identifiers that the first `k` lines contribute: after each line,
/// that of the candidate at that point.
pub open spec fn collected(kinds: Seq<LineView>, f: FilterView, k: int) -> Set<u32>
    decreases k,
{
    if k <= 0 {
        Set::empty()
    } else {
        match emitted(candidate_after(kinds, k), f) {
            Some(id) => collected(kinds, f, k - 1).insert(id),
            None => collected(kinds, f, k - 1),
        }
    }
}

/// The snapshot that a dump denotes under a filter.
pub open spec fn snapshot_of(text: Seq<char>, f: FilterView) -> Set<u32> {
    collected(line_kinds(text), f, line_kinds(text).len() as int)
}

/// Reads a dump into the snapshot of the streams that match `filter`.
///
/// No line makes the reading fail: a line that says nothing is passed over.
/// The snapshot is a function of the text and the filter, so the same dump
/// read again gives the same snapshot.
pub fn parse_dump(text: &str, filter: &Filter) -> (snapshot: Snapshot)
    ensures
        snapshot@ == snapshot_of(text@, filter@),
{
    let chars = chars_of(text);
    let all = chars.as_slice();
    let n = all.len();
    let ghost kinds = line_kinds(text@);
    let keys = Keys::new();
    let mut candidate = Candidate::new();
    let mut snapshot = Snapshot::new();
    let mut pos: usize = 0;
    let ghost mut k: int = 0;
    assert(text@.skip(0) =~= text@);
    while pos < n
        invariant
            all@ == text@,
            n == all@.len(),
            pos <= n,
            kinds == line_kinds(text@),
            keys.valid(),
            0 <= k <= kinds.len(),
            lines(text@) == lines(text@).take(k) + lines(text@.skip(pos as int)),
            candidate@ == candidate_after(kinds, k),
            snapshot@ == collected(kinds, filter@, k),
        decreases n - pos,
    {
        let rest = &all[pos..n];
        let len = find_char(rest, '\n');
        let raw = &rest[0..len];
        let line = keys.classify(trim(raw));
        let next: usize = if len < n - pos {
            pos + len + 1
        } else {
            n
        };
        proof {
            let after = after_first(text@.skip(pos as int), '\n');
            assert(after =~= text@.skip(next as int));
            assert(lines(text@) =~= lines(text@).take(k).push(raw@) + lines(after));
            k = k + 1;
        }
        candidate.advance(line);
        match candidate.matching_id(filter) {
            Some(id) => {
                snapshot.insert(id);
            },
            None => {},
        }
        pos = next;
    }
    snapshot
}

/// Whether some candidate among those after the lines 1 to `k` contributes `id`.
pub open spec fn contributed(kinds: Seq<LineView>, f: FilterView, k: int, id: u32) -> bool {
    exists|j: int| 0 < j <= k && #[trigger] emitted(candidate_after(kinds, j), f) == Some(id)
}

/// An identifier is collected exactly when the candidate after some line contributes it.
pub proof fn lemma_collected(kinds: Seq<LineView>, f: FilterView, k: int, id: u32)
    ensures
        collected(kinds, f, k).contains(id) <==> contributed(kinds, f, k, id),
    decreases k,
{
    if k > 0 {
        lemma_collected(kinds, f, k - 1, id);
        if contributed(kinds, f, k, id) {
            let j = choose|j: int|
                0 < j <= k && #[trigger] emitted(candidate_after(kinds, j), f) == Some(id);
            if j < k {
                assert(contributed(kinds, f, k - 1, id));
            }
        }
        if collected(kinds, f, k).contains(id) {
            if collected(kinds, f, k - 1).contains(id) {
                let j = choose|j: int|
                    0 < j <= k - 1 && #[trigger] emitted(candidate_after(kinds, j), f) == Some(
                        id,
                    );
                assert(0 < j <= k && emitted(candidate_after(kinds, j), f) == Some(id));
            } else {
                assert(emitted(candidate_after(kinds, k), f) == Some(id));
            }
        }
    }
}

/// The line that opens the record in which the line `k` stands: the last
/// boundary among the first `k` lines, or -1 where there is none.
pub open spec fn record_start(kinds: Seq<LineView>, k: int) -> int
    decreases k,
{
    if k <= 0 {
        -1
    } else if kinds[k - 1] is Boundary {
        k - 1
    } else {
        record_start(kinds, k - 1)
    }
}

/// Whether the line `i` stands in the record that the line `b` opens: after
/// `b`, with no boundary from there up to `i`.
pub open spec fn in_record(kinds: Seq<LineView>, b: int, i: int) -> bool {
    &&& 0 <= b < i < kinds.len()
    &&& forall|m: int| b < m <= i ==> !(#[trigger] kinds[m] is Boundary)
}

/// Whether the line `b` opens the record of the node `id`, and that record
/// gives the filter's name on one line and the filter's media class on another.
pub open spec fn record_matches(kinds: Seq<LineView>, f: FilterView, id: u32, b: int) -> bool {
    &&& 0 <= b < kinds.len()
    &&& kinds[b] == LineView::Boundary(Some(id))
    &&& exists|i: int| #[trigger] in_record(kinds, b, i) && kinds[i] == LineView::Name(f.name)
    &&& exists|j: int| #[trigger]
        in_record(kinds, b, j) && kinds[j] == LineView::MediaClass(f.media_class)
}

/// All that a candidate knows comes from the record it stands in: its
/// identifier from the line that opens the record, its name and its media
/// class from lines of the record.
proof fn lemma_candidate_from_record(kinds: Seq<LineView>, k: int)
    requires
        0 <= k <= kinds.len(),
    ensures
        -1 <= record_start(kinds, k) < k,
        forall|m: int| record_start(kinds, k) < m < k ==> !(#[trigger] kinds[m] is Boundary),
        record_start(kinds, k) >= 0 ==> kinds[record_start(kinds, k)] == LineView::Boundary(
            candidate_after(kinds, k).id,
        ),
        record_start(kinds, k) < 0 ==> candidate_after(kinds, k).id is None,
        candidate_after(kinds, k).name matches Some(v) ==> exists|i: int|
            record_start(kinds, k) < i < k && #[trigger] kinds[i] == LineView::Name(v),
        candidate_after(kinds, k).media_class matches Some(v) ==> exists|j: int|
            record_start(kinds, k) < j < k && #[trigger] kinds[j] == LineView::MediaClass(v),
    decreases k,
{
    if k > 0 {
        lemma_candidate_from_record(kinds, k - 1);
        let before = candidate_after(kinds, k - 1);
        let b = record_start(kinds, k - 1);
        match kinds[k - 1] {
            LineView::Boundary(id) => {},
            LineView::Name(v) => {
                assert(kinds[k - 1] == LineView::Name(v));
                if before.media_class is Some {
                    let j = choose|j: int|
                        b < j < k - 1 && #[trigger] kinds[j] == LineView::MediaClass(
                            before.media_class->0,
                        );
                    assert(kinds[j] == LineView::MediaClass(before.media_class->0));
                }
            },
            LineView::MediaClass(v) => {
                assert(kinds[k - 1] == LineView::MediaClass(v));
                if before.name is Some {
                    let i = choose|i: int|
                        b < i < k - 1 && #[trigger] kinds[i] == LineView::Name(before.name->0);
                    assert(kinds[i] == LineView::Name(before.name->0));
                }
            },
            LineView::Other => {
                if before.name is Some {
                    let i = choose|i: int|
                        b < i < k - 1 && #[trigger] kinds[i] == LineView::Name(before.name->0);
                    assert(kinds[i] == LineView::Name(before.name->0));
                }
                if before.media_class is Some {
                    let j = choose|j: int|
                        b < j < k - 1 && #[trigger] kinds[j] == LineView::MediaClass(
                            before.media_class->0,
                        );
                    assert(kinds[j] == LineView::MediaClass(before.media_class->0));
                }
            },
        }
    }
}

/// Filtering is sound. Every identifier in the snapshot of a dump is that
/// of a record which gives the filter's name and the filter's media class,
/// whichever of the two lines comes first. So a node whose record lacks
/// either of them is in no snapshot.
pub proof fn lemma_members_match_filter(text: Seq<char>, f: FilterView, id: u32)
    requires
        snapshot_of(text, f).contains(id),
    ensures
        exists|b: int| record_matches(line_kinds(text), f, id, b),
{
    let kinds = line_kinds(text);
    lemma_collected(kinds, f, kinds.len() as int, id);
    let k = choose|k: int|
        0 < k <= kinds.len() && #[trigger] emitted(candidate_after(kinds, k), f) == Some(id);
    lemma_candidate_from_record(kinds, k);
    let b = record_start(kinds, k);
    let c = candidate_after(kinds, k);
    assert(c.id == Some(id) && c.name == Some(f.name) && c.media_class == Some(f.media_class));
    let i = choose|i: int| b < i < k && #[trigger] kinds[i] == LineView::Name(f.name);
    let j = choose|j: int| b < j < k && #[trigger] kinds[j] == LineView::MediaClass(f.media_class);
    assert(in_record(kinds, b, i));
    assert(in_record(kinds, b, j));
    assert(record_matches(kinds, f, id, b));
}

/// Within a record whose name lines all give the filter's name and whose
/// media class lines all give the filter's media class, the candidate has
/// the record's identifier, and the filter's name and media class as soon as
/// a line has given them.
proof fn lemma_candidate_in_record(kinds: Seq<LineView>, f: FilterView, id: u32, b: int, k: int)
    requires
        0 <= b < k <= kinds.len(),
        kinds[b] == LineView::Boundary(Some(id)),
        forall|m: int| b < m < k ==> !(#[trigger] kinds[m] is Boundary),
        forall|m: int| b < m < k && #[trigger] kinds[m] is Name ==> kinds[m] == LineView::Name(f.name),
        forall|m: int|
            b < m < k && #[trigger] kinds[m] is MediaClass ==> kinds[m] == LineView::MediaClass(
                f.media_class,
            ),
    ensures
        candidate_after(kinds, k).id == Some(id),
        (exists|i: int| b < i < k && #[trigger] kinds[i] is Name) ==> candidate_after(
            kinds,
            k,
        ).name == Some(f.name),
        (exists|j: int| b < j < k && #[trigger] kinds[j] is MediaClass) ==> candidate_after(
            kinds,
            k,
        ).media_class == Some(f.media_class),
    decreases k,
{
    if k > b + 1 {
        lemma_candidate_in_record(kinds, f, id, b, k - 1);
        assert(!(kinds[k - 1] is Boundary));
        if exists|i: int| b < i < k && #[trigger] kinds[i] is Name {
            let i = choose|i: int| b < i < k && #[trigger] kinds[i] is Name;
            if i < k - 1 {
                assert(b < i < k - 1 && kinds[i] is Name);
            } else {
                assert(kinds[k - 1] is Name);
            }
        }
        if exists|j: int| b < j < k && #[trigger] kinds[j] is MediaClass {
            let j = choose|j: int| b < j < k && #[trigger] kinds[j] is MediaClass;
            if j < k - 1 {
                assert(b < j < k - 1 && kinds[j] is MediaClass);
            } else {
                assert(kinds[k - 1] is MediaClass);
            }
        }
    } else {
        assert(candidate_after(kinds, b + 1) == advance(candidate_after(kinds, b), kinds[b]));
    }
}

/// Filtering is complete. A record that gives the filter's name and the
/// filter's media class, and up to the later of these two lines no other
/// name or media class, puts its identifier into the snapshot, whichever of
/// the two lines comes first.
pub proof fn lemma_matching_record_is_member(
    text: Seq<char>,
    f: FilterView,
    id: u32,
    b: int,
    i: int,
    j: int,
)
    requires
        0 <= b < line_kinds(text).len(),
        line_kinds(text)[b] == LineView::Boundary(Some(id)),
        in_record(line_kinds(text), b, i),
        in_record(line_kinds(text), b, j),
        line_kinds(text)[i] == LineView::Name(f.name),
        line_kinds(text)[j] == LineView::MediaClass(f.media_class),
        forall|m: int|
            b < m <= i || b < m <= j ==> (#[trigger] line_kinds(text)[m] is Name ==> line_kinds(
                text,
            )[m] == LineView::Name(f.name)),
        forall|m: int|
            b < m <= i || b < m <= j ==> (#[trigger] line_kinds(text)[m] is MediaClass
                ==> line_kinds(text)[m] == LineView::MediaClass(f.media_class)),
    ensures
        snapshot_of(text, f).contains(id),
{
    let kinds = line_kinds(text);
    let k = if i < j {
        j + 1
    } else {
        i + 1
    };
    lemma_candidate_in_record(kinds, f, id, b, k);
    assert(b < i < k && kinds[i] is Name);
    assert(b < j < k && kinds[j] is MediaClass);
    assert(emitted(candidate_after(kinds, k), f) == Some(id));
    assert(contributed(kinds, f, kinds.len() as int, id));
    lemma_collected(kinds, f, kinds.len() as int, id);
}

/// Whether a dump is well formed: it opens with a record, so that no
/// property line stands before the first boundary.
pub open spec fn well_formed(kinds: Seq<LineView>) -> bool {
    forall|i: int|
        0 <= i < kinds.len() && record_start(kinds, i) < 0 ==> (#[trigger] kinds[i] is Boundary
            || kinds[i] is Other)
}

/// The candidate after `k` lines depends on those lines only.
proof fn lemma_candidate_of_prefix(a: Seq<LineView>, b: Seq<LineView>, f: FilterView, k: int)
    requires
        0 <= k <= a.len(),
        k <= b.len(),
        forall|i: int| 0 <= i < k ==> a[i] == b[i],
    ensures
        candidate_after(a, k) == candidate_after(b, k),
        collected(a, f, k) == collected(b, f, k),
    decreases k,
{
    if k > 0 {
        lemma_candidate_of_prefix(a, b, f, k - 1);
    }
}

/// What the first lines contribute, all the lines contribute.
proof fn lemma_collected_grows(kinds: Seq<LineView>, f: FilterView, k: int, n: int, id: u32)
    requires
        k <= n,
        collected(kinds, f, k).contains(id),
    ensures
        collected(kinds, f, n).contains(id),
{
    lemma_collected(kinds, f, k, id);
    let j = choose|j: int|
        0 < j <= k && #[trigger] emitted(candidate_after(kinds, j), f) == Some(id);
    assert(0 < j <= n && emitted(candidate_after(kinds, j), f) == Some(id));
    lemma_collected(kinds, f, n, id);
}

/// In the second of two copies of a well-formed dump, the candidate is
/// the one that the first copy ended with until the first boundary comes,
/// and from then on the one that the first copy had at the same place.
proof fn lemma_candidate_in_second_copy(kinds: Seq<LineView>, k: int)
    requires
        well_formed(kinds),
        0 <= k <= kinds.len(),
    ensures
        candidate_after(kinds + kinds, kinds.len() + k) == if record_start(kinds, k) < 0 {
            candidate_after(kinds, kinds.len() as int)
        } else {
            candidate_after(kinds, k)
        },
    decreases k,
{
    let n = kinds.len() as int;
    let twice = kinds + kinds;
    if k == 0 {
        lemma_candidate_of_prefix(twice, kinds, FilterView { name: seq![], media_class: seq![] }, n);
    } else {
        lemma_candidate_in_second_copy(kinds, k - 1);
        assert(twice[n + k - 1] == kinds[k - 1]);
        if !(kinds[k - 1] is Boundary) && record_start(kinds, k - 1) < 0 {
            assert(kinds[k - 1] is Other);
        }
    }
}

/// The lines of the second of two copies of a well-formed dump contribute
/// nothing that the first copy has not contributed.
proof fn lemma_repeated_kinds(kinds: Seq<LineView>, f: FilterView, k: int)
    requires
        well_formed(kinds),
        0 <= k <= kinds.len(),
    ensures
        collected(kinds + kinds, f, kinds.len() + k) == collected(kinds, f, kinds.len() as int),
    decreases k,
{
    let n = kinds.len() as int;
    let twice = kinds + kinds;
    if k == 0 {
        lemma_candidate_of_prefix(twice, kinds, f, n);
    } else {
        lemma_repeated_kinds(kinds, f, k - 1);
        lemma_candidate_in_second_copy(kinds, k);
        lemma_candidate_from_record(kinds, k);
        let c = candidate_after(twice, n + k);
        match emitted(c, f) {
            Some(id) => {
                let j = if record_start(kinds, k) < 0 {
                    n
                } else {
                    k
                };
                assert(emitted(candidate_after(kinds, j), f) == Some(id));
                assert(j > 0) by {
                    if j == 0 {
                        assert(candidate_after(kinds, 0) == blank());
                    }
                }
                assert(collected(kinds, f, j).contains(id));
                lemma_collected_grows(kinds, f, j, n, id);
                assert(collected(kinds, f, n).insert(id) =~= collected(kinds, f, n));
            },
            None => {},
        }
    }
}

/// The lines of a text that ends with a line feed, followed by another
/// text, are the lines of the one and then the lines of the other.
pub proof fn lemma_lines_of_concatenation(a: Seq<char>, b: Seq<char>)
    requires
        a.len() == 0 || a.last() == '\n',
    ensures
        lines(a + b) == lines(a) + lines(b),
    decreases a.len(),
{
    if a.len() == 0 {
        assert(a + b =~= b);
        assert(lines(a) + lines(b) =~= lines(b));
    } else {
        let i = first_index(a, '\n');
        lemma_first_index(a, '\n', a.len() - 1);
        lemma_first_index(a, '\n', 0);
        assert(i < a.len());
        assert((a + b)[i] == '\n');
        assert forall|j: int| 0 <= j < i implies (a + b)[j] != '\n' by {
            lemma_first_index(a, '\n', j);
        }
        lemma_first_index(a + b, '\n', i);
        let rest = after_first(a, '\n');
        assert(before_first(a + b, '\n') =~= before_first(a, '\n'));
        assert(after_first(a + b, '\n') =~= rest + b);
        if rest.len() > 0 {
            assert(rest.last() == a.last());
        }
        lemma_lines_of_concatenation(rest, b);
        assert(lines(a + b) =~= lines(a) + lines(b));
    }
}

/// Reading is idempotent on well-formed input: the snapshot of a
/// well-formed dump that ends with a line feed, read twice in a row, is the
/// snapshot of the dump read once.
pub proof fn lemma_reading_twice_adds_nothing(text: Seq<char>, f: FilterView)
    requires
        text.len() == 0 || text.last() == '\n',
        well_formed(line_kinds(text)),
    ensures
        snapshot_of(text + text, f) == snapshot_of(text, f),
{
    let kinds = line_kinds(text);
    lemma_lines_of_concatenation(text, text);
    assert(line_kinds(text + text) =~= kinds + kinds);
    lemma_repeated_kinds(kinds, f, kinds.len() as int);
}

} // verus!
