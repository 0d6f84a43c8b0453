//! Addresses inside the document: a text of segments, each preceded by `/`.
use vstd::prelude::*;
use vstd::string::*;

verus! {

/// The character that separates the segments of an address.
pub open spec fn is_separator(c: char) -> bool {
    c == '/'
}

/// A segment that an address can carry unchanged: not empty, and free of the separator.
pub open spec fn is_segment(part: Seq<char>) -> bool {
    part.len() > 0 && forall|i: int| 0 <= i < part.len() ==> !is_separator(#[trigger] part[i])
}

/// Position of the first separator in `text`, or the length of `text` where it holds none.
pub open spec fn first_separator(text: Seq<char>) -> int
    decreases text.len(),
{
    if text.len() == 0 || is_separator(text[0]) {
        0
    } else {
        1 + first_separator(text.skip(1))
    }
}

/// Position of the last separator in `text`, or 0 where it holds none.
pub open spec fn last_separator(text: Seq<char>) -> int
    decreases text.len(),
{
    if text.len() == 0 {
        0
    } else if is_separator(text.last()) {
        text.len() - 1
    } else {
        last_separator(text.drop_last())
    }
}

/// The segments of an address text: the non-empty pieces between its separators, in order.
pub open spec fn segments_of(text: Seq<char>) -> Seq<Seq<char>>
    decreases text.len(),
{
    let k = first_separator(text);
    let head = if k > 0 {
        seq![text.take(k)]
    } else {
        Seq::<Seq<char>>::empty()
    };
    if 0 <= k < text.len() {
        head + segments_of(text.skip(k + 1))
    } else {
        head
    }
}

/// Every segment preceded by a separator, one after the other.
pub open spec fn join_segments(segments: Seq<Seq<char>>) -> Seq<char>
    decreases segments.len(),
{
    if segments.len() == 0 {
        Seq::<char>::empty()
    } else {
        join_segments(segments.drop_last()) + seq!['/'] + segments.last()
    }
}

/// The text of the root address.
pub open spec fn root_text() -> Seq<char> {
    seq!['/']
}

/// The text of the address made of `segments`; the root has a text of its own.
pub open spec fn encode(segments: Seq<Seq<char>>) -> Seq<char> {
    if segments.len() == 0 {
        root_text()
    } else {
        join_segments(segments)
    }
}

/// The text of an address after `part` is appended to the address `text`.
pub open spec fn pushed_text(text: Seq<char>, part: Seq<char>) -> Seq<char> {
    if text == root_text() {
        text + part
    } else {
        text + seq!['/'] + part
    }
}

/// The text of the parent of the address `text`.
pub open spec fn parent_text(text: Seq<char>) -> Seq<char> {
    let kept = text.take(last_separator(text));
    if kept.len() == 0 {
        root_text()
    } else {
        kept
    }
}

/// The text behind the last separator of the address `text`.
pub open spec fn basename_text(text: Seq<char>) -> Seq<char> {
    text.skip(last_separator(text) + 1)
}

/// The texts of a list of strings.
pub open spec fn texts(parts: Seq<String>) -> Seq<Seq<char>> {
    parts.map_values(|s: String| s@)
}


/// An address inside the document, held as its text. The root's text is `/`; the text of any
/// other address holds its segments, each preceded by the separator.
#[derive(Debug, PartialEq, Eq)]
pub struct ValuePath(String);

impl View for ValuePath {
    type V = Seq<char>;

    closed spec fn view(&self) -> Seq<char> {
        self.0@
    }
}

impl Clone for ValuePath {
    fn clone(&self) -> (copy: Self)
        ensures
            copy@ == self@,
    {
        ValuePath(self.0.clone())
    }
}

impl Default for ValuePath {
    /// The root address.
    fn default() -> (root: Self)
        ensures
            root@ == root_text(),
    {
        proof {
            reveal_strlit("/");
        }
        let text = "/".to_owned();
        assert(text@ =~= root_text());
        ValuePath(text)
    }
}

impl From<String> for ValuePath {
    fn from(text: String) -> (path: Self)
        ensures
            path@ == text@,
    {
        ValuePath(text)
    }
}

impl vstd::std_specs::convert::FromSpecImpl<String> for ValuePath {
    open spec fn obeys_from_spec() -> bool {
        true
    }

    closed spec fn from_spec(text: String) -> Self {
        ValuePath(text)
    }
}

impl<'a> From<&'a str> for ValuePath {
    fn from(text: &'a str) -> (path: Self)
        ensures
            path@ == text@,
    {
        ValuePath(text.to_owned())
    }
}

impl<'a> vstd::std_specs::convert::FromSpecImpl<&'a str> for ValuePath {
    open spec fn obeys_from_spec() -> bool {
        false
    }

    open spec fn from_spec(text: &'a str) -> Self {
        arbitrary()
    }
}

impl From<Vec<String>> for ValuePath {
    /// The address made of the segments `parts`.
    fn from(parts: Vec<String>) -> (path: Self)
        ensures
            path@ == encode(texts(parts@)),
    {
        proof {
            reveal_strlit("/");
        }
        let ghost segments = texts(parts@);
        let mut text = String::new();
        let mut i: usize = 0;
        assert(segments.take(0) =~= Seq::<Seq<char>>::empty());
        while i < parts.len()
            invariant
                i <= parts.len(),
                segments == texts(parts@),
                text@ == join_segments(segments.take(i as int)),
            decreases parts.len() - i,
        {
            proof {
                reveal_strlit("/");
                assert(segments.take(i + 1).drop_last() =~= segments.take(i as int));
                assert(segments.take(i + 1).last() == parts@[i as int]@);
            }
            text.append("/");
            text.append(parts[i].as_str());
            i += 1;
        }
        assert(segments.take(parts.len() as int) =~= segments);
        if parts.len() == 0 {
            text.append("/");
            assert(text@ =~= root_text());
        }
        ValuePath(text)
    }
}

impl vstd::std_specs::convert::FromSpecImpl<Vec<String>> for ValuePath {
    open spec fn obeys_from_spec() -> bool {
        false
    }

    open spec fn from_spec(parts: Vec<String>) -> Self {
        arbitrary()
    }
}

impl From<ValuePath> for Vec<String> {
    /// The segments of the address `level`.
    fn from(level: ValuePath) -> (parts: Self)
        ensures
            texts(parts@) == level.segments(),
    {
        level.to_vec()
    }
}

impl vstd::std_specs::convert::FromSpecImpl<ValuePath> for Vec<String> {
    open spec fn obeys_from_spec() -> bool {
        false
    }

    open spec fn from_spec(level: ValuePath) -> Self {
        arbitrary()
    }
}

/// Whether `part` is a segment that an address can carry unchanged: not empty, and free of
/// the separator.
pub fn is_segment_text(part: &str) -> (clean: bool)
    ensures
        clean == is_segment(part@),
{
    let n = part.unicode_len();
    if n == 0 {
        return false;
    }
    let mut i: usize = 0;
    while i < n
        invariant
            i <= n,
            n == part@.len(),
            forall|j: int| 0 <= j < i ==> !is_separator(#[trigger] part@[j]),
        decreases n - i,
    {
        if part.get_char(i) == '/' {
            assert(is_separator(part@[i as int]));
            return false;
        }
        i += 1;
    }
    true
}

/// Position of the last separator of `text`, or 0 where it holds none.
fn find_last_separator(text: &str) -> (position: usize)
    ensures
        position == last_separator(text@),
{
    let n = text.unicode_len();
    let mut i = n;
    while i > 0
        invariant
            i <= n,
            n == text@.len(),
            forall|j: int| i <= j < n ==> !is_separator(#[trigger] text@[j]),
        decreases i,
    {
        if text.get_char(i - 1) == '/' {
            proof {
                lemma_last_separator_at(text@, i - 1);
            }
            return i - 1;
        }
        i -= 1;
    }
    proof {
        lemma_last_separator_none(text@);
    }
    0
}

impl ValuePath {
    /// The address whose text is `text`.
    pub fn new(text: String) -> (path: Self)
        ensures
            path@ == text@,
    {
        ValuePath(text)
    }

    /// The segments of the address.
    pub open spec fn segments(&self) -> Seq<Seq<char>> {
        segments_of(self@)
    }

    /// Whether two addresses are the same address.
    pub fn same(&self, other: &ValuePath) -> (same: bool)
        ensures
            same == (self@ == other@),
    {
        let same = self.0 == other.0;
        assert(same == (self.0@ == other.0@));
        same
    }

    /// The text of the address.
    pub fn as_str(&self) -> (text: &str)
        ensures
            text@ == self@,
    {
        self.0.as_str()
    }

    /// The text of the address, by value.
    pub fn into_string(self) -> (text: String)
        ensures
            text@ == self@,
    {
        self.0
    }

    /// Whether this is the root address.
    pub fn is_top(&self) -> (top: bool)
        requires
            self@.len() > 0,
        ensures
            top == (self@ == root_text()),
    {
        let text = self.0.as_str();
        let top = text.unicode_len() == 1 && text.get_char(0) == '/';
        assert(top == (text@ =~= root_text()));
        top
    }

    /// Appends the segment `part`.
    pub fn push(&mut self, part: &str)
        requires
            old(self)@.len() > 0,
        ensures
            final(self)@ == pushed_text(old(self)@, part@),
    {
        proof {
            reveal_strlit("/");
        }
        if !self.is_top() {
            self.0.append("/");
        }
        self.0.append(part);
        assert(self.0@ =~= pushed_text(old(self)@, part@));
    }

    /// The address one segment up; the root is its own parent.
    pub fn parent(&self) -> (up: Self)
        ensures
            up@ == parent_text(self@),
    {
        let text = self.0.as_str();
        let position = find_last_separator(text);
        proof {
            lemma_last_separator_bounds(text@);
        }
        if position == 0 {
            let root = ValuePath::default();
            assert(text@.take(0).len() == 0);
            root
        } else {
            let kept = text.substring_char(0, position).to_owned();
            assert(kept@ =~= text@.take(position as int));
            ValuePath(kept)
        }
    }

    /// The last segment of the address; empty at the root.
    pub fn basename(&self) -> (name: String)
        requires
            self@.len() > 0,
        ensures
            name@ == basename_text(self@),
    {
        let text = self.0.as_str();
        let position = find_last_separator(text);
        proof {
            lemma_last_separator_bounds(text@);
        }
        let n = text.unicode_len();
        let name = text.substring_char(position + 1, n).to_owned();
        assert(name@ =~= text@.skip(position + 1));
        name
    }

    /// This address with the segment `part` appended.
    pub fn join(&self, part: &str) -> (longer: Self)
        requires
            self@.len() > 0,
        ensures
            longer@ == pushed_text(self@, part@),
    {
        let mut longer = self.clone();
        longer.push(part);
        longer
    }

    /// The segments of the address, in order.
    pub fn to_vec(&self) -> (parts: Vec<String>)
        ensures
            texts(parts@) == self.segments(),
    {
        let text = self.0.as_str();
        let n = text.unicode_len();
        let mut parts: Vec<String> = Vec::new();
        let mut start: usize = 0;
        let mut i: usize = 0;
        assert(text@.skip(0) =~= text@);
        assert(texts(parts@) =~= Seq::<Seq<char>>::empty());
        while i < n
            invariant
                n == text@.len(),
                start <= i <= n,
                forall|j: int| start <= j < i ==> !is_separator(#[trigger] text@[j]),
                segments_of(text@) == texts(parts@) + segments_of(text@.skip(start as int)),
            decreases n - i,
        {
            if text.get_char(i) == '/' {
                let ghost rest = text@.skip(start as int);
                let ghost before = texts(parts@);
                proof {
                    assert forall|j: int| 0 <= j < i - start implies !is_separator(
                        #[trigger] rest[j],
                    ) by {
                        assert(rest[j] == text@[start + j]);
                    }
                    assert(rest[i - start] == text@[i as int]);
                    lemma_first_separator_at(rest, i - start);
                    assert(rest.skip(i - start + 1) =~= text@.skip(i + 1));
                    assert(rest.take(i - start) =~= text@.subrange(start as int, i as int));
                }
                if start < i {
                    let piece = text.substring_char(start, i).to_owned();
                    parts.push(piece);
                    assert(texts(parts@) =~= before + seq![piece@]);
                    assert(segments_of(text@) =~= texts(parts@) + segments_of(
                        text@.skip(i + 1),
                    ));
                } else {
                    assert(segments_of(text@) =~= texts(parts@) + segments_of(
                        text@.skip(i + 1),
                    ));
                }
                start = i + 1;
            }
            i += 1;
        }
        let ghost rest = text@.skip(start as int);
        let ghost before = texts(parts@);
        proof {
            assert forall|j: int| 0 <= j < rest.len() implies !is_separator(#[trigger] rest[j]) by {
                assert(rest[j] == text@[start + j]);
            }
            lemma_first_separator_at(rest, rest.len() as int);
            assert(rest.take(rest.len() as int) =~= rest);
        }
        if start < n {
            let piece = text.substring_char(start, n).to_owned();
            assert(piece@ =~= rest);
            parts.push(piece);
            assert(texts(parts@) =~= before + seq![piece@]);
        } else {
            assert(segments_of(rest) =~= Seq::<Seq<char>>::empty());
            assert(texts(parts@) =~= before + segments_of(rest));
        }
        parts
    }
}

pub proof fn lemma_first_separator_bounds(text: Seq<char>)
    ensures
        0 <= first_separator(text) <= text.len(),
        forall|i: int| 0 <= i < first_separator(text) ==> !is_separator(#[trigger] text[i]),
        first_separator(text) < text.len() ==> is_separator(text[first_separator(text)]),
    decreases text.len(),
{
    if text.len() == 0 || is_separator(text[0]) {
    } else {
        let rest = text.skip(1);
        lemma_first_separator_bounds(rest);
        assert forall|i: int| 0 <= i < first_separator(text) implies !is_separator(
            #[trigger] text[i],
        ) by {
            if i > 0 {
                assert(text[i] == rest[i - 1]);
            }
        }
        if first_separator(text) < text.len() {
            assert(text[first_separator(text)] == rest[first_separator(rest)]);
        }
    }
}

/// The first separator stands at `k` where no separator comes before `k` and one stands there,
/// or the text ends there.
pub proof fn lemma_first_separator_at(text: Seq<char>, k: int)
    requires
        0 <= k <= text.len(),
        forall|i: int| 0 <= i < k ==> !is_separator(#[trigger] text[i]),
        k < text.len() ==> is_separator(text[k]),
    ensures
        first_separator(text) == k,
{
    lemma_first_separator_bounds(text);
    let f = first_separator(text);
    if f < k {
        assert(!is_separator(text[f]));
    } else if f > k {
        assert(!is_separator(text[k]));
    }
}

pub proof fn lemma_last_separator_bounds(text: Seq<char>)
    ensures
        0 <= last_separator(text),
        text.len() > 0 ==> last_separator(text) < text.len(),
        forall|i: int| last_separator(text) < i < text.len() ==> !is_separator(#[trigger] text[i]),
        last_separator(text) > 0 ==> is_separator(text[last_separator(text)]),
    decreases text.len(),
{
    if text.len() == 0 {
    } else if is_separator(text.last()) {
    } else {
        let init = text.drop_last();
        lemma_last_separator_bounds(init);
        assert forall|i: int| last_separator(text) < i < text.len() implies !is_separator(
            #[trigger] text[i],
        ) by {
            if i < init.len() {
                assert(text[i] == init[i]);
            }
        }
        if last_separator(text) > 0 {
            assert(text[last_separator(text)] == init[last_separator(init)]);
        }
    }
}

/// The last separator stands at `k` where one stands there and none comes after it.
pub proof fn lemma_last_separator_at(text: Seq<char>, k: int)
    requires
        0 <= k < text.len(),
        is_separator(text[k]),
        forall|i: int| k < i < text.len() ==> !is_separator(#[trigger] text[i]),
    ensures
        last_separator(text) == k,
    decreases text.len(),
{
    if is_separator(text.last()) {
        assert(k == text.len() - 1) by {
            if k < text.len() - 1 {
                assert(!is_separator(text[text.len() - 1]));
            }
        }
    } else {
        let init = text.drop_last();
        assert(init[k] == text[k]);
        assert forall|i: int| k < i < init.len() implies !is_separator(#[trigger] init[i]) by {
            assert(init[i] == text[i]);
        }
        lemma_last_separator_at(init, k);
    }
}

/// A text without separators has its last separator at 0.
pub proof fn lemma_last_separator_none(text: Seq<char>)
    requires
        forall|i: int| 0 <= i < text.len() ==> !is_separator(#[trigger] text[i]),
    ensures
        last_separator(text) == 0,
    decreases text.len(),
{
    if text.len() > 0 {
        let init = text.drop_last();
        assert forall|i: int| 0 <= i < init.len() implies !is_separator(#[trigger] init[i]) by {
            assert(init[i] == text[i]);
        }
        lemma_last_separator_none(init);
    }
}

/// The segments of two texts joined by one separator are the segments of the first, then
/// those of the second.
pub proof fn lemma_segments_of_joined(a: Seq<char>, b: Seq<char>)
    ensures
        segments_of(a + seq!['/'] + b) == segments_of(a) + segments_of(b),
    decreases a.len(),
{
    let whole = a + seq!['/'] + b;
    let k = first_separator(a);
    lemma_first_separator_bounds(a);
    assert forall|i: int| 0 <= i < k implies !is_separator(#[trigger] whole[i]) by {
        assert(whole[i] == a[i]);
    }
    assert(is_separator(whole[k])) by {
        if k < a.len() {
            assert(whole[k] == a[k]);
        } else {
            assert(whole[k] == '/');
        }
    }
    lemma_first_separator_at(whole, k);
    assert(whole.take(k) =~= a.take(k));
    if k < a.len() {
        assert(whole.skip(k + 1) =~= a.skip(k + 1) + seq!['/'] + b);
        lemma_segments_of_joined(a.skip(k + 1), b);
        let head = if k > 0 {
            seq![a.take(k)]
        } else {
            Seq::<Seq<char>>::empty()
        };
        assert(head + (segments_of(a.skip(k + 1)) + segments_of(b)) =~= (head + segments_of(
            a.skip(k + 1),
        )) + segments_of(b));
    } else {
        assert(whole.skip(k + 1) =~= b);
    }
}

/// A segment is the one segment of its own text.
pub proof fn lemma_segments_of_segment(part: Seq<char>)
    requires
        is_segment(part),
    ensures
        segments_of(part) == seq![part],
{
    lemma_first_separator_at(part, part.len() as int);
    assert(part.take(part.len() as int) =~= part);
}

/// The empty text and the root's text have no segments.
pub proof fn lemma_segments_of_root()
    ensures
        segments_of(Seq::<char>::empty()) == Seq::<Seq<char>>::empty(),
        segments_of(root_text()) == Seq::<Seq<char>>::empty(),
{
    let root = root_text();
    assert(segments_of(Seq::<char>::empty()) =~= Seq::<Seq<char>>::empty());
    assert(first_separator(root) == 0);
    assert(root.skip(1) =~= Seq::<char>::empty());
    assert(segments_of(root) =~= Seq::<Seq<char>>::empty());
}

/// Appending a segment to an address appends it to the segments of the address.
pub proof fn lemma_segments_of_pushed(text: Seq<char>, part: Seq<char>)
    requires
        is_segment(part),
    ensures
        segments_of(pushed_text(text, part)) == segments_of(text).push(part),
{
    lemma_segments_of_segment(part);
    if text == root_text() {
        lemma_segments_of_root();
        lemma_segments_of_joined(Seq::<char>::empty(), part);
        assert(Seq::<char>::empty() + seq!['/'] + part =~= text + part);
        assert(Seq::<Seq<char>>::empty() + seq![part] =~= Seq::<Seq<char>>::empty().push(part));
    } else {
        lemma_segments_of_joined(text, part);
        assert(segments_of(text) + seq![part] =~= segments_of(text).push(part));
    }
}

/// An address with a segment appended has the address as its parent and the segment as its
/// last name.
pub proof fn lemma_parent_of_pushed(text: Seq<char>, part: Seq<char>)
    requires
        text.len() > 0,
        is_segment(part),
    ensures
        parent_text(pushed_text(text, part)) == text,
        basename_text(pushed_text(text, part)) == part,
{
    let pushed = pushed_text(text, part);
    let at = if text == root_text() {
        0int
    } else {
        text.len() as int
    };
    assert(pushed[at] == '/');
    assert forall|i: int| at < i < pushed.len() implies !is_separator(#[trigger] pushed[i]) by {
        assert(pushed[i] == part[i - at - 1]);
    }
    lemma_last_separator_at(pushed, at);
    assert(pushed.skip(at + 1) =~= part);
    if text == root_text() {
        assert(pushed.take(0).len() == 0);
    } else {
        assert(pushed.take(at) =~= text);
    }
}

/// Joining segments and splitting the text again gives the segments back.
pub proof fn lemma_segments_of_join(segments: Seq<Seq<char>>)
    requires
        forall|i: int| 0 <= i < segments.len() ==> is_segment(#[trigger] segments[i]),
    ensures
        segments_of(join_segments(segments)) == segments,
    decreases segments.len(),
{
    if segments.len() == 0 {
        lemma_segments_of_root();
    } else {
        let init = segments.drop_last();
        assert forall|i: int| 0 <= i < init.len() implies is_segment(#[trigger] init[i]) by {
            assert(init[i] == segments[i]);
        }
        lemma_segments_of_join(init);
        lemma_segments_of_joined(join_segments(init), segments.last());
        lemma_segments_of_segment(segments.last());
        assert(init + seq![segments.last()] =~= segments);
    }
}

/// Decoding an encoded address gives its segments back, where every segment is non-empty and
/// free of the separator.
pub proof fn lemma_decode_encode(segments: Seq<Seq<char>>)
    requires
        forall|i: int| 0 <= i < segments.len() ==> is_segment(#[trigger] segments[i]),
    ensures
        segments_of(encode(segments)) == segments,
{
    if segments.len() == 0 {
        lemma_segments_of_root();
        assert(segments =~= Seq::<Seq<char>>::empty());
    } else {
        lemma_segments_of_join(segments);
    }
}

} // verus!
