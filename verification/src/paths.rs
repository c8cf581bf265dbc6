//! File paths as lists of components.

use vstd::prelude::*;

use crate::text::{lemma_without_leading_slashes, same_text, trim_leading_slashes, without_leading_slashes, Text};

verus! {

/// One component of a path.
#[derive(Debug, PartialEq, Eq)]
pub enum PathPart {
    /// What stands in front of the root on some systems, like the letter of a drive, as it is written.
    Prefix(String),
    /// The root of the file system, as it is written.
    Root(String),
    /// A name that is text.
    Name(String),
    /// A name that is not text, by its bytes.
    Raw(Vec<u8>),
}

/// What a [`PathPart`] holds.
pub enum PathPartView {
    Prefix(Text),
    Root(Text),
    Name(Text),
    Raw(Seq<u8>),
}

impl DeepView for PathPart {
    type V = PathPartView;

    open spec fn deep_view(&self) -> PathPartView {
        match self {
            PathPart::Prefix(text) => PathPartView::Prefix(text@),
            PathPart::Root(text) => PathPartView::Root(text@),
            PathPart::Name(name) => PathPartView::Name(name@),
            PathPart::Raw(bytes) => PathPartView::Raw(bytes@),
        }
    }
}

impl Clone for PathPart {
    fn clone(&self) -> (r: Self)
        ensures
            r.deep_view() == self.deep_view(),
    {
        match self {
            PathPart::Prefix(text) => PathPart::Prefix(text.clone()),
            PathPart::Root(text) => PathPart::Root(text.clone()),
            PathPart::Name(name) => PathPart::Name(name.clone()),
            PathPart::Raw(bytes) => {
                let copy = bytes.clone();
                assert(copy@ =~= bytes@);
                PathPart::Raw(copy)
            },
        }
    }
}

impl PathPart {
    /// Whether two components are the same.
    pub fn same(&self, other: &PathPart) -> (r: bool)
        ensures
            r == (self.deep_view() == other.deep_view()),
    {
        match (self, other) {
            (PathPart::Prefix(a), PathPart::Prefix(b)) => same_text(a.as_str(), b.as_str()),
            (PathPart::Root(a), PathPart::Root(b)) => same_text(a.as_str(), b.as_str()),
            (PathPart::Name(a), PathPart::Name(b)) => same_text(a.as_str(), b.as_str()),
            (PathPart::Raw(a), PathPart::Raw(b)) => same_bytes(a, b),
            _ => false,
        }
    }
}

fn same_bytes(a: &Vec<u8>, b: &Vec<u8>) -> (r: bool)
    ensures
        r == (a@ == b@),
{
    if a.len() != b.len() {
        return false;
    }
    let mut i: usize = 0;
    while i < a.len()
        invariant
            a.len() == b.len(),
            i <= a.len(),
            forall|j: int| 0 <= j < i ==> a@[j] == b@[j],
        decreases a.len() - i,
    {
        if a[i] != b[i] {
            return false;
        }
        i = i + 1;
    }
    assert(a@ =~= b@);
    true
}

/// A path, by its components.
#[derive(Debug, PartialEq, Eq)]
pub struct FilePath {
    pub parts: Vec<PathPart>,
}

impl DeepView for FilePath {
    type V = Seq<PathPartView>;

    open spec fn deep_view(&self) -> Seq<PathPartView> {
        self.parts.deep_view()
    }
}

impl Clone for FilePath {
    fn clone(&self) -> (r: Self)
        ensures
            r.deep_view() == self.deep_view(),
    {
        let parts = self.parts.clone();
        assert(parts.deep_view() =~= self.parts.deep_view());
        FilePath { parts }
    }
}

/// `path` without its first components, which are those of `base`; nothing if it does not begin
/// with them.
pub open spec fn stripped(path: Seq<PathPartView>, base: Seq<PathPartView>) -> Option<
    Seq<PathPartView>,
> {
    if base.is_prefix_of(path) {
        Some(path.skip(base.len() as int))
    } else {
        None
    }
}

impl FilePath {
    /// The path of the first `n` components.
    pub fn first_parts(&self, n: usize) -> (r: FilePath)
        requires
            n <= self.deep_view().len(),
        ensures
            r.deep_view() == self.deep_view().take(n as int),
    {
        let mut parts: Vec<PathPart> = Vec::new();
        let mut i: usize = 0;
        while i < n
            invariant
                i <= n <= self.parts.len(),
                parts.deep_view() == self.deep_view().take(i as int),
            decreases n - i,
        {
            let ghost before = parts.deep_view();
            parts.push(self.parts[i].clone());
            assert(parts.deep_view() =~= before.push(self.deep_view()[i as int]));
            assert(self.deep_view().take(i + 1) =~= before.push(self.deep_view()[i as int]));
            i = i + 1;
        }
        FilePath { parts }
    }

    /// Whether the path begins with the components of `base`.
    pub fn starts_with(&self, base: &FilePath) -> (r: bool)
        ensures
            r == base.deep_view().is_prefix_of(self.deep_view()),
    {
        if base.parts.len() > self.parts.len() {
            return false;
        }
        let mut i: usize = 0;
        while i < base.parts.len()
            invariant
                i <= base.parts.len() <= self.parts.len(),
                forall|j: int| 0 <= j < i ==> base.deep_view()[j] == self.deep_view()[j],
            decreases base.parts.len() - i,
        {
            if !base.parts[i].same(&self.parts[i]) {
                assert(base.deep_view()[i as int] != self.deep_view()[i as int]);
                assert(!base.deep_view().is_prefix_of(self.deep_view())) by {
                    if base.deep_view().is_prefix_of(self.deep_view()) {
                        let n = base.deep_view().len() as int;
                        assert(self.deep_view().subrange(0, n)[i as int]
                            == self.deep_view()[i as int]);
                    }
                }
                return false;
            }
            i = i + 1;
        }
        assert(base.deep_view() =~= self.deep_view().subrange(0, base.deep_view().len() as int));
        true
    }

    /// Whether two paths have the same components.
    pub fn same(&self, other: &FilePath) -> (r: bool)
        ensures
            r == (self.deep_view() == other.deep_view()),
    {
        if self.parts.len() != other.parts.len() {
            return false;
        }
        let r = self.starts_with(other);
        assert(self.deep_view() =~= self.deep_view().subrange(0, self.deep_view().len() as int));
        r
    }

    /// The path below `base`, if the path begins with `base`.
    pub fn strip_prefix(&self, base: &FilePath) -> (r: Option<FilePath>)
        ensures
            r.deep_view() == stripped(self.deep_view(), base.deep_view()),
    {
        if !self.starts_with(base) {
            return None;
        }
        let mut parts: Vec<PathPart> = Vec::new();
        let mut i: usize = base.parts.len();
        let ghost n = base.deep_view().len() as int;
        assert(parts.deep_view() =~= self.deep_view().subrange(n, n));
        while i < self.parts.len()
            invariant
                0 <= n <= i <= self.parts.len(),
                parts.deep_view() == self.deep_view().subrange(n, i as int),
            decreases self.parts.len() - i,
        {
            let ghost before = parts.deep_view();
            parts.push(self.parts[i].clone());
            assert(parts.deep_view() =~= before.push(self.deep_view()[i as int]));
            assert(self.deep_view().subrange(n, i + 1) =~= before.push(
                self.deep_view()[i as int],
            ));
            i = i + 1;
        }
        assert(self.deep_view().subrange(n, i as int) =~= self.deep_view().skip(n));
        Some(FilePath { parts })
    }

    /// The path of something called `name` in this directory.
    pub fn join(&self, name: &str) -> (r: FilePath)
        ensures
            r.deep_view() == self.deep_view().push(PathPartView::Name(name@)),
    {
        let mut parts = self.clone().parts;
        let ghost before = parts.deep_view();
        parts.push(PathPart::Name(name.to_owned()));
        assert(parts.deep_view() =~= before.push(PathPartView::Name(name@)));
        FilePath { parts }
    }
}

/// The components as text, each behind a slash; nothing if one of them is not text.
pub open spec fn slash_text(parts: Seq<PathPartView>) -> Option<Text>
    decreases parts.len(),
{
    if parts.len() == 0 {
        Some(Seq::empty())
    } else {
        match (slash_text(parts.drop_last()), parts.last()) {
            (Some(front), PathPartView::Prefix(text)) => Some(front + seq!['/'] + text),
            (Some(front), PathPartView::Root(text)) => Some(front + seq!['/'] + text),
            (Some(front), PathPartView::Name(name)) => Some(front + seq!['/'] + name),
            _ => None,
        }
    }
}

/// A path as Bazel writes it: the components with a slash between them, and none in front.
/// Nothing if one of them is not text.
pub open spec fn bazel_path(parts: Seq<PathPartView>) -> Option<Text> {
    match slash_text(parts) {
        Some(text) => Some(without_leading_slashes(text)),
        None => None,
    }
}

impl FilePath {
    /// The path as Bazel writes it, whatever the host's delimiter is.
    pub fn to_bazel_path(&self) -> (r: Option<String>)
        ensures
            r.deep_view() == bazel_path(self.deep_view()),
    {
        let ghost all = self.deep_view();
        let mut text = String::new();
        let mut i: usize = 0;
        while i < self.parts.len()
            invariant
                all == self.deep_view(),
                i <= self.parts.len(),
                slash_text(all.take(i as int)) == Some(text@),
            decreases self.parts.len() - i,
        {
            assert(all.take(i + 1).drop_last() =~= all.take(i as int));
            assert(all.take(i + 1).last() == self.parts@[i as int].deep_view());
            let ghost front = text@;
            match &self.parts[i] {
                PathPart::Prefix(name) | PathPart::Root(name) | PathPart::Name(name) => {
                    text.push('/');
                    text.append(name.as_str());
                    assert(text@ =~= front + seq!['/'] + name@);
                },
                PathPart::Raw(_) => {
                    proof {
                        lemma_slash_text_prefix(all, i + 1);
                    }
                    return None;
                },
            }
            i = i + 1;
        }
        assert(all.take(i as int) =~= all);
        Some(trim_leading_slashes(text.as_str()))
    }
}

proof fn lemma_slash_text_prefix(parts: Seq<PathPartView>, n: int)
    requires
        0 <= n <= parts.len(),
        slash_text(parts.take(n)) is None,
    ensures
        slash_text(parts) is None,
    decreases parts.len() - n,
{
    if n < parts.len() {
        assert(parts.take(n + 1).drop_last() =~= parts.take(n));
        lemma_slash_text_prefix(parts, n + 1);
    } else {
        assert(parts.take(n) =~= parts);
    }
}

/// A component that a file name can have: text that is not empty and holds no slash.
pub open spec fn is_file_name(part: PathPartView) -> bool {
    part matches PathPartView::Name(name) && name.len() > 0 && !name.contains('/')
}

/// The names with a slash between them.
pub open spec fn joined_names(parts: Seq<PathPartView>) -> Text
    decreases parts.len(),
{
    if parts.len() == 0 {
        Seq::empty()
    } else if parts.len() == 1 {
        parts[0]->Name_0
    } else {
        joined_names(parts.drop_last()) + seq!['/'] + parts.last()->Name_0
    }
}

/// The Bazel form of a relative path of file names is the names with a slash between them, so it
/// does not begin with a slash. An absolute path has the form of the path below the root.
pub proof fn lemma_bazel_path_joins_names(parts: Seq<PathPartView>)
    requires
        forall|i: int| 0 <= i < parts.len() ==> is_file_name(#[trigger] parts[i]),
    ensures
        bazel_path(parts) == Some(joined_names(parts)),
        bazel_path(seq![PathPartView::Root(seq!['/'])] + parts) == Some(joined_names(parts)),
        parts.len() > 0 ==> joined_names(parts)[0] != '/',
{
    lemma_slash_text_names(parts);
    lemma_slash_text_below_root(parts);
    let joined = joined_names(parts);
    if parts.len() == 0 {
        assert(seq!['/', '/'].drop_first() =~= seq!['/']);
        assert(seq!['/'].drop_first() =~= Seq::<char>::empty());
        reveal_with_fuel(without_leading_slashes, 3);
    } else {
        assert((seq!['/'] + joined).drop_first() =~= joined);
        let below = seq!['/', '/', '/'] + joined;
        assert(below.drop_first() =~= seq!['/', '/'] + joined);
        assert(below.drop_first().drop_first() =~= seq!['/'] + joined);
        assert(below.drop_first().drop_first().drop_first() =~= joined);
        reveal_with_fuel(without_leading_slashes, 4);
    }
}

proof fn lemma_slash_text_names(parts: Seq<PathPartView>)
    requires
        forall|i: int| 0 <= i < parts.len() ==> is_file_name(#[trigger] parts[i]),
    ensures
        parts.len() == 0 ==> slash_text(parts) == Some(Seq::<char>::empty()),
        parts.len() > 0 ==> slash_text(parts) == Some(seq!['/'] + joined_names(parts)),
        parts.len() > 0 ==> joined_names(parts).len() > 0 && joined_names(parts)[0] != '/',
    decreases parts.len(),
{
    if parts.len() > 0 {
        let front = parts.drop_last();
        lemma_slash_text_names(front);
        assert(is_file_name(parts.last()));
        let name = parts.last()->Name_0;
        assert(name.contains(name[0]));
        if parts.len() == 1 {
            assert(front =~= Seq::empty());
            assert(Seq::<char>::empty() + seq!['/'] + name =~= seq!['/'] + name);
        } else {
            assert(seq!['/'] + joined_names(front) + seq!['/'] + name =~= seq!['/'] + (joined_names(
                front,
            ) + seq!['/'] + name));
        }
    }
}

proof fn lemma_slash_text_below_root(parts: Seq<PathPartView>)
    requires
        forall|i: int| 0 <= i < parts.len() ==> is_file_name(#[trigger] parts[i]),
    ensures
        parts.len() == 0 ==> slash_text(seq![PathPartView::Root(seq!['/'])] + parts) == Some(seq!['/', '/']),
        parts.len() > 0 ==> slash_text(seq![PathPartView::Root(seq!['/'])] + parts) == Some(
            seq!['/', '/', '/'] + joined_names(parts),
        ),
    decreases parts.len(),
{
    let whole = seq![PathPartView::Root(seq!['/'])] + parts;
    if parts.len() == 0 {
        assert(whole.drop_last() =~= Seq::empty());
        assert(slash_text(whole.drop_last()) == Some(Seq::<char>::empty()));
        assert(Seq::<char>::empty() + seq!['/'] + seq!['/'] =~= seq!['/', '/']);
    } else {
        let front = parts.drop_last();
        lemma_slash_text_below_root(front);
        assert(whole.drop_last() =~= seq![PathPartView::Root(seq!['/'])] + front);
        assert(is_file_name(parts.last()));
        let name = parts.last()->Name_0;
        if parts.len() == 1 {
            assert(seq!['/', '/'] + seq!['/'] + name =~= seq!['/', '/', '/'] + name);
        } else {
            assert(seq!['/', '/', '/'] + joined_names(front) + seq!['/'] + name =~= seq![
                '/',
                '/',
                '/',
            ] + (joined_names(front) + seq!['/'] + name));
        }
    }
}

/// Components of a path, each behind a slash.
pub open spec fn behind_slashes(parts: Seq<PathPartView>) -> Text
    decreases parts.len(),
{
    if parts.len() == 0 {
        Seq::empty()
    } else {
        let text = match parts[0] {
            PathPartView::Prefix(text) => text,
            PathPartView::Root(text) => text,
            PathPartView::Name(text) => text,
            PathPartView::Raw(_) => Seq::empty(),
        };
        seq!['/'] + text + behind_slashes(parts.drop_first())
    }
}

/// Whether Bazel writes a path like this: every component is text, and `text` is what is left of them,
/// each behind a slash, when the slashes that come first are dropped.
pub open spec fn is_bazel_form(parts: Seq<PathPartView>, text: Text) -> bool {
    let whole = behind_slashes(parts);
    &&& forall|i: int| 0 <= i < parts.len() ==> !(#[trigger] parts[i] is Raw)
    &&& text.is_suffix_of(whole)
    &&& forall|i: int| 0 <= i < whole.len() - text.len() ==> #[trigger] whole[i] == '/'
    &&& text.len() > 0 ==> text[0] != '/'
}

/// A path has a Bazel form exactly if every component is text, and then it has that form and no other.
pub proof fn lemma_bazel_path(parts: Seq<PathPartView>, text: Text)
    ensures
        bazel_path(parts) is Some <==> forall|i: int|
            0 <= i < parts.len() ==> !(#[trigger] parts[i] is Raw),
        bazel_path(parts) == Some(text) <==> is_bazel_form(parts, text),
{
    lemma_slash_text(parts);
    if slash_text(parts) is Some {
        let whole = behind_slashes(parts);
        lemma_without_leading_slashes(whole);
        let n = choose|n: int|
            {
                &&& 0 <= n <= whole.len()
                &&& without_leading_slashes(whole) == #[trigger] whole.skip(n)
                &&& forall|i: int| 0 <= i < n ==> #[trigger] whole[i] == '/'
                &&& n < whole.len() ==> whole[n] != '/'
            };
        let kept = whole.skip(n);
        assert(kept =~= whole.subrange(n, whole.len() as int));
        if is_bazel_form(parts, text) {
            let m = whole.len() - text.len();
            assert(text =~= whole.subrange(m, whole.len() as int));
            if m < n {
                assert(text[0] == whole[m]);
            }
            if n < m {
                assert(whole[n] == '/');
            }
            assert(text =~= kept);
        }
    }
}

proof fn lemma_slash_text(parts: Seq<PathPartView>)
    ensures
        slash_text(parts) is Some <==> forall|i: int|
            0 <= i < parts.len() ==> !(#[trigger] parts[i] is Raw),
        slash_text(parts) matches Some(text) ==> text == behind_slashes(parts),
    decreases parts.len(),
{
    if parts.len() > 0 {
        let front = parts.drop_last();
        lemma_slash_text(front);
        lemma_behind_slashes(front, parts.last());
        assert(front.push(parts.last()) =~= parts);
        assert(forall|i: int| 0 <= i < front.len() ==> #[trigger] parts[i] == front[i]);
        assert(parts[parts.len() - 1] == parts.last());
        if slash_text(front) is None {
            let i = choose|i: int| 0 <= i < front.len() && (#[trigger] front[i] is Raw);
            assert(parts[i] is Raw);
        }
    }
}

proof fn lemma_behind_slashes(parts: Seq<PathPartView>, last: PathPartView)
    ensures
        behind_slashes(parts.push(last)) == behind_slashes(parts) + seq!['/'] + (match last {
            PathPartView::Prefix(text) => text,
            PathPartView::Root(text) => text,
            PathPartView::Name(text) => text,
            PathPartView::Raw(_) => Seq::empty(),
        }),
    decreases parts.len(),
{
    reveal_with_fuel(behind_slashes, 2);
    let all = parts.push(last);
    if parts.len() == 0 {
        assert(all.drop_first() =~= Seq::empty());
        assert(behind_slashes(all) =~= behind_slashes(parts) + seq!['/'] + (match last {
            PathPartView::Prefix(text) => text,
            PathPartView::Root(text) => text,
            PathPartView::Name(text) => text,
            PathPartView::Raw(_) => Seq::empty(),
        }));
    } else {
        lemma_behind_slashes(parts.drop_first(), last);
        assert(all.drop_first() =~= parts.drop_first().push(last));
        assert(behind_slashes(all) =~= behind_slashes(parts) + seq!['/'] + (match last {
            PathPartView::Prefix(text) => text,
            PathPartView::Root(text) => text,
            PathPartView::Name(text) => text,
            PathPartView::Raw(_) => Seq::empty(),
        }));
    }
}

/// What `String::from_utf8_lossy` makes of bytes.
pub uninterp spec fn lossy_text(bytes: Seq<u8>) -> Seq<char>;

/// Calls `String::from_utf8_lossy`. Claimed: the text depends on the bytes alone.
#[verifier::external_body]
fn utf8_lossy(bytes: &Vec<u8>) -> (r: String)
    ensures
        r@ == lossy_text(bytes@),
{
    String::from_utf8_lossy(bytes).into_owned()
}

/// A component as text. In a name that is not text, what cannot be read is replaced.
pub open spec fn part_text(part: PathPartView) -> Text {
    match part {
        PathPartView::Prefix(text) => text,
        PathPartView::Root(text) => text,
        PathPartView::Name(name) => name,
        PathPartView::Raw(bytes) => lossy_text(bytes),
    }
}

impl PathPart {
    /// The component as text.
    pub fn to_text(&self) -> (r: String)
        ensures
            r@ == part_text(self.deep_view()),
    {
        match self {
            PathPart::Prefix(text) | PathPart::Root(text) | PathPart::Name(text) => text.clone(),
            PathPart::Raw(bytes) => utf8_lossy(bytes),
        }
    }
}

/// A component of a path, as it is written.
#[derive(Debug, PartialEq, Eq)]
pub struct WrittenPart {
    /// What stands between the component and the one in front of it: a separator or more.
    pub gap: String,
    pub part: PathPart,
}

/// What a [`WrittenPart`] holds.
#[verifier::ext_equal]
pub struct WrittenPartView {
    pub gap: Text,
    pub part: PathPartView,
}

impl DeepView for WrittenPart {
    type V = WrittenPartView;

    open spec fn deep_view(&self) -> WrittenPartView {
        WrittenPartView { gap: self.gap@, part: self.part.deep_view() }
    }
}

impl Clone for WrittenPart {
    fn clone(&self) -> (r: Self)
        ensures
            r.deep_view() == self.deep_view(),
    {
        WrittenPart { gap: self.gap.clone(), part: self.part.clone() }
    }
}

/// A path by its components, with what stands between them.
#[derive(Debug, PartialEq, Eq)]
pub struct WrittenPath {
    pub parts: Vec<WrittenPart>,
    /// What the path as a whole prints for debugging.
    pub printed: String,
}

/// What a [`WrittenPath`] holds.
#[verifier::ext_equal]
pub struct WrittenPathView {
    pub parts: Seq<WrittenPartView>,
    pub printed: Text,
}

impl DeepView for WrittenPath {
    type V = WrittenPathView;

    open spec fn deep_view(&self) -> WrittenPathView {
        WrittenPathView { parts: self.parts.deep_view(), printed: self.printed@ }
    }
}

impl Clone for WrittenPath {
    fn clone(&self) -> (r: Self)
        ensures
            r.deep_view() == self.deep_view(),
    {
        let parts = self.parts.clone();
        assert(parts.deep_view() =~= self.parts.deep_view());
        WrittenPath { parts, printed: self.printed.clone() }
    }
}

/// The components of a path.
pub open spec fn components(path: WrittenPathView) -> Seq<PathPartView> {
    path.parts.map_values(|p: WrittenPartView| p.part)
}

/// Components of a path, as they are written.
pub open spec fn written_text(path: Seq<WrittenPartView>) -> Text
    decreases path.len(),
{
    if path.len() == 0 {
        Seq::empty()
    } else if path.len() == 1 {
        part_text(path[0].part)
    } else {
        written_text(path.drop_last()) + path.last().gap + part_text(path.last().part)
    }
}

/// Whether a path is absolute.
pub open spec fn is_absolute(path: Seq<PathPartView>) -> bool {
    ||| path.len() > 0 && path[0] is Root
    ||| path.len() > 1 && path[0] is Prefix && path[1] is Root
}

/// Whether a path has a parent: its last component is a name.
pub open spec fn has_parent(path: Seq<PathPartView>) -> bool {
    path.len() > 0 && (path.last() is Name || path.last() is Raw)
}

impl FilePath {
    /// Whether the path is absolute.
    pub fn is_absolute(&self) -> (r: bool)
        ensures
            r == is_absolute(self.deep_view()),
    {
        assert(self.parts.len() > 0 ==> self.deep_view()[0] == self.parts@[0].deep_view());
        assert(self.parts.len() > 1 ==> self.deep_view()[1] == self.parts@[1].deep_view());
        if self.parts.len() == 0 {
            return false;
        }
        match &self.parts[0] {
            PathPart::Root(_) => true,
            PathPart::Prefix(_) => {
                if self.parts.len() < 2 {
                    return false;
                }
                match &self.parts[1] {
                    PathPart::Root(_) => true,
                    _ => false,
                }
            },
            _ => false,
        }
    }

    /// Whether the path has a parent.
    pub fn has_parent(&self) -> (r: bool)
        ensures
            r == has_parent(self.deep_view()),
    {
        let n: usize = self.parts.len();
        if n == 0 {
            return false;
        }
        assert(self.deep_view().last() == self.parts@[n - 1].deep_view());
        match &self.parts[n - 1] {
            PathPart::Name(_) | PathPart::Raw(_) => true,
            _ => false,
        }
    }
}

impl WrittenPath {
    /// The components of the path.
    pub fn path(&self) -> (r: FilePath)
        ensures
            r.deep_view() == components(self.deep_view()),
    {
        let ghost all = components(self.deep_view());
        let mut parts: Vec<PathPart> = Vec::new();
        let mut i: usize = 0;
        assert(parts.deep_view() =~= all.take(0));
        while i < self.parts.len()
            invariant
                all == components(self.deep_view()),
                i <= self.parts.len(),
                parts.deep_view() == all.take(i as int),
            decreases self.parts.len() - i,
        {
            let ghost before = parts.deep_view();
            parts.push(self.parts[i].part.clone());
            assert(parts.deep_view() =~= before.push(all[i as int]));
            assert(all.take(i + 1) =~= before.push(all[i as int]));
            i = i + 1;
        }
        assert(all.take(i as int) =~= all);
        FilePath { parts }
    }

    /// The components from the `from`th up to the `to`th, as they are written.
    pub fn text_between(&self, from: usize, to: usize) -> (r: String)
        requires
            from <= to <= self.deep_view().parts.len(),
        ensures
            r@ == written_text(self.deep_view().parts.subrange(from as int, to as int)),
    {
        let ghost all = self.deep_view().parts;
        let mut text = String::new();
        let mut i: usize = from;
        assert(all.subrange(from as int, from as int) =~= Seq::empty());
        while i < to
            invariant
                all == self.deep_view().parts,
                from <= i <= to <= self.parts.len(),
                text@ == written_text(all.subrange(from as int, i as int)),
            decreases to - i,
        {
            let part = &self.parts[i];
            let name = part.part.to_text();
            let ghost longer = all.subrange(from as int, i + 1);
            proof {
                assert(longer.drop_last() =~= all.subrange(from as int, i as int));
                assert(longer.last() == part.deep_view());
                if i == from {
                    assert(longer[0] == part.deep_view());
                    assert(text@ + name@ =~= name@);
                }
            }
            if i > from {
                text = text.concat(part.gap.as_str());
            }
            text = text.concat(name.as_str());
            i = i + 1;
        }
        text
    }
}

/// A path is absolute exactly if it begins with the root, or with a prefix and the root behind it.
pub proof fn lemma_absolute_path(root: Text, prefix: Text, rest: Seq<PathPartView>)
    ensures
        is_absolute(seq![PathPartView::Root(root)] + rest),
        is_absolute(
            seq![PathPartView::Prefix(prefix)] + (seq![PathPartView::Root(root)] + rest),
        ),
        rest.len() > 0 && !(rest[0] is Root) ==> (is_absolute(rest) <==> rest[0] is Prefix
            && rest.len() > 1 && rest[1] is Root),
        rest.len() == 0 ==> !is_absolute(rest),
{
}

/// A path has a parent exactly if it ends with a name, be it text or not.
pub proof fn lemma_parent_of_path(outer: Seq<PathPartView>, part: PathPartView)
    ensures
        has_parent(outer.push(part)) <==> part is Name || part is Raw,
        !has_parent(Seq::empty()),
{
}

} // verus!
