//! Target platforms.

use vstd::prelude::*;

use crate::text::{contains_text, Text};

verus! {

/// The error of the `cargo-platform` crate.
#[verifier::external_type_specification]
#[verifier::external_body]
pub struct ExPlatformError(cargo_platform::ParseError);

/// A configuration value of a target.
#[derive(Debug, PartialEq, Eq)]
pub enum Cfg {
    /// A name, like `unix`.
    Name(String),
    /// A key and its value, like `target_os = "linux"`.
    KeyPair(String, String),
}

/// What a [`Cfg`] holds.
pub enum CfgView {
    Name(Text),
    KeyPair(Text, Text),
}

impl DeepView for Cfg {
    type V = CfgView;

    open spec fn deep_view(&self) -> CfgView {
        match self {
            Cfg::Name(name) => CfgView::Name(name@),
            Cfg::KeyPair(key, value) => CfgView::KeyPair(key@, value@),
        }
    }
}

impl Clone for Cfg {
    fn clone(&self) -> (r: Self)
        ensures
            r.deep_view() == self.deep_view(),
    {
        match self {
            Cfg::Name(name) => Cfg::Name(name.clone()),
            Cfg::KeyPair(key, value) => Cfg::KeyPair(key.clone(), value.clone()),
        }
    }
}

/// Whether `cargo_platform::Platform` can be read from a text.
pub uninterp spec fn platform_reads(repr: Seq<char>) -> bool;

/// Whether a platform matches a target and its configuration, as `cargo_platform::Platform::matches`
/// decides it.
pub uninterp spec fn platform_matches(repr: Seq<char>, name: Seq<char>, cfgs: Seq<CfgView>) -> bool;

/// Calls `from_str` of `cargo_platform::Platform`. Claimed: that it succeeds depends on the text
/// alone.
#[verifier::external_body]
fn cargo_platform_read(repr: &str) -> (r: Result<(), cargo_platform::ParseError>)
    ensures
        r is Ok <==> platform_reads(repr@),
{
    repr.parse::<cargo_platform::Platform>().map(|_| ())
}

/// Calls `cargo_platform::Platform::matches`. Claimed: the answer depends on the arguments alone, and
/// a platform that is no `cfg(..)` expression matches the target of that name and no other.
#[verifier::external_body]
fn cargo_platform_matches(repr: &str, name: &str, cfgs: &Vec<Cfg>) -> (r: bool)
    requires
        platform_reads(repr@),
    ensures
        r == platform_matches(repr@, name@, cfgs.deep_view()),
        !("cfg("@.is_prefix_of(repr@)) ==> r == (repr@ == name@),
{
    let given: Vec<cargo_platform::Cfg> = cfgs.iter().map(|c| match c {
        Cfg::Name(n) => cargo_platform::Cfg::Name(n.clone()),
        Cfg::KeyPair(k, v) => cargo_platform::Cfg::KeyPair(k.clone(), v.clone()),
    }).collect();
    repr.parse::<cargo_platform::Platform>().unwrap().matches(name, &given)
}

/// A platform that a dependency is for: a target's name, or a `cfg(..)` expression.
#[derive(Debug, PartialEq, Eq)]
pub struct Platform {
    repr: String,
}

impl DeepView for Platform {
    type V = Text;

    closed spec fn deep_view(&self) -> Text {
        self.repr@
    }
}

impl Clone for Platform {
    fn clone(&self) -> (r: Self)
        ensures
            r.deep_view() == self.deep_view(),
    {
        proof {
            use_type_invariant(self);
        }
        Platform { repr: self.repr.clone() }
    }
}

impl Platform {
    #[verifier::type_invariant]
    closed spec fn reads(&self) -> bool {
        platform_reads(self.repr@)
    }

    /// The platform that `repr` denotes, if it denotes one.
    pub fn new(repr: &str) -> (r: Option<Platform>)
        ensures
            r is Some <==> platform_reads(repr@),
            r matches Some(platform) ==> platform.deep_view() == repr@,
    {
        match cargo_platform_read(repr) {
            Ok(()) => Some(Platform { repr: repr.to_owned() }),
            Err(_) => None,
        }
    }

    /// The platform as text.
    pub fn to_text(&self) -> (r: String)
        ensures
            r@ == self.deep_view(),
    {
        self.repr.clone()
    }

    /// Whether two platforms have the same text.
    pub fn same(&self, other: &Platform) -> (r: bool)
        ensures
            r == (self.deep_view() == other.deep_view()),
    {
        self.repr == other.repr
    }

    /// Whether the platform matches the target `name` with the configuration `cfgs`.
    pub fn matches(&self, name: &str, cfgs: &Vec<Cfg>) -> (r: bool)
        ensures
            r == platform_matches(self.deep_view(), name@, cfgs.deep_view()),
            !("cfg("@.is_prefix_of(self.deep_view())) ==> r == (self.deep_view() == name@),
    {
        proof {
            use_type_invariant(self);
        }
        cargo_platform_matches(self.repr.as_str(), name, cfgs)
    }
}

/// What Cargo writes for the platform that a dependency is for, and the platform, where it can be read.
#[derive(Debug, PartialEq, Eq)]
pub struct WrittenPlatform {
    repr: String,
    platform: Option<Platform>,
}

/// What a [`WrittenPlatform`] holds.
#[verifier::ext_equal]
pub struct WrittenPlatformView {
    pub repr: Text,
    pub reads: bool,
}

impl DeepView for WrittenPlatform {
    type V = WrittenPlatformView;

    closed spec fn deep_view(&self) -> WrittenPlatformView {
        WrittenPlatformView { repr: self.repr@, reads: self.platform is Some }
    }
}

impl Clone for WrittenPlatform {
    fn clone(&self) -> (r: Self)
        ensures
            r.deep_view() == self.deep_view(),
    {
        proof {
            use_type_invariant(self);
        }
        let platform = match &self.platform {
            Some(platform) => Some(platform.clone()),
            None => None,
        };
        WrittenPlatform { repr: self.repr.clone(), platform }
    }
}

impl WrittenPlatform {
    #[verifier::type_invariant]
    closed spec fn is_what_is_written(&self) -> bool {
        &&& self.platform is Some <==> platform_reads(self.repr@)
        &&& self.platform matches Some(platform) ==> platform.deep_view() == self.repr@
    }

    /// The platform that is written like this.
    pub fn new(repr: &str) -> (r: WrittenPlatform)
        ensures
            r.deep_view() == (WrittenPlatformView { repr: repr@, reads: platform_reads(repr@) }),
    {
        WrittenPlatform { repr: repr.to_owned(), platform: Platform::new(repr) }
    }

    /// The platform, where it can be read.
    pub fn platform(&self) -> (r: &Option<Platform>)
        ensures
            r.deep_view() == (if self.deep_view().reads {
                Some(self.deep_view().repr)
            } else {
                None
            }),
            self.deep_view().reads == platform_reads(self.deep_view().repr),
    {
        proof {
            use_type_invariant(self);
        }
        &self.platform
    }
}

/// The target that a build is planned for, and its configuration.
#[derive(Debug, PartialEq, Eq)]
pub struct PlatformDetails {
    pub target_triple: String,
    pub attrs: Vec<Cfg>,
}

/// What [`PlatformDetails`] hold.
#[verifier::ext_equal]
pub struct PlatformDetailsView {
    pub target_triple: Text,
    pub attrs: Seq<CfgView>,
}

impl DeepView for PlatformDetails {
    type V = PlatformDetailsView;

    open spec fn deep_view(&self) -> PlatformDetailsView {
        PlatformDetailsView { target_triple: self.target_triple@, attrs: self.attrs.deep_view() }
    }
}

impl PlatformDetails {
    pub fn new(target_triple: String, attrs: Vec<Cfg>) -> (r: PlatformDetails)
        ensures
            r.deep_view() == (PlatformDetailsView {
                target_triple: target_triple@,
                attrs: attrs.deep_view(),
            }),
    {
        PlatformDetails { target_triple, attrs }
    }

    /// The configuration of the target.
    pub fn attrs(&self) -> (r: &Vec<Cfg>)
        ensures
            r.deep_view() == self.deep_view().attrs,
    {
        &self.attrs
    }
}

/// A target that the Bazel rules support, and its configuration.
#[derive(Debug, PartialEq, Eq)]
pub struct BazelTriple {
    pub triple: String,
    pub cfgs: Vec<Cfg>,
}

/// What a [`BazelTriple`] holds.
#[verifier::ext_equal]
pub struct BazelTripleView {
    pub triple: Text,
    pub cfgs: Seq<CfgView>,
}

impl DeepView for BazelTriple {
    type V = BazelTripleView;

    open spec fn deep_view(&self) -> BazelTripleView {
        BazelTripleView { triple: self.triple@, cfgs: self.cfgs.deep_view() }
    }
}

/// Whether a platform matches a supported target.
pub open spec fn triple_matches(repr: Text, t: BazelTripleView) -> bool {
    platform_matches(repr, t.triple, t.cfgs)
}

/// Whether a platform matches one of the supported targets.
pub open spec fn matches_some_triple(repr: Text, triples: Seq<BazelTripleView>) -> bool {
    exists|i: int| 0 <= i < triples.len() && triple_matches(repr, #[trigger] triples[i])
}

/// Whether a platform matches all supported targets.
pub open spec fn matches_every_triple(repr: Text, triples: Seq<BazelTripleView>) -> bool {
    forall|i: int| 0 <= i < triples.len() ==> triple_matches(repr, #[trigger] triples[i])
}

/// Whether a platform matches one of the supported targets, and whether it matches all of them.
pub fn is_bazel_supported_platform(platform: &Platform, triples: &Vec<BazelTriple>) -> (r: (
    bool,
    bool,
))
    ensures
        r.0 == matches_some_triple(platform.deep_view(), triples.deep_view()),
        r.1 == matches_every_triple(platform.deep_view(), triples.deep_view()),
{
    let mut any = false;
    let mut all = true;
    let mut i: usize = 0;
    while i < triples.len()
        invariant
            i <= triples.len(),
            any == (exists|j: int|
                0 <= j < i && triple_matches(
                    platform.deep_view(),
                    #[trigger] triples.deep_view()[j],
                )),
            all == (forall|j: int|
                0 <= j < i ==> triple_matches(
                    platform.deep_view(),
                    #[trigger] triples.deep_view()[j],
                )),
        decreases triples.len() - i,
    {
        let t = &triples[i];
        assert(triples.deep_view()[i as int] == t.deep_view());
        if platform.matches(t.triple.as_str(), &t.cfgs) {
            assert(triple_matches(platform.deep_view(), triples.deep_view()[i as int]));
            any = true;
        } else {
            assert(!triple_matches(platform.deep_view(), triples.deep_view()[i as int]));
            all = false;
        }
        i = i + 1;
    }
    (any, all)
}

/// Whether a supported target matches a platform and is, where there is such a list, one of those
/// that are wanted.
pub open spec fn triple_chosen(
    repr: Text,
    allowed: Option<Seq<Text>>,
    t: BazelTripleView,
) -> bool {
    triple_matches(repr, t) && (allowed matches Some(names) ==> names.contains(t.triple))
}

/// The names of the chosen targets, in the order of the table.
pub open spec fn matching_triples(
    repr: Text,
    triples: Seq<BazelTripleView>,
    allowed: Option<Seq<Text>>,
) -> Seq<Text> {
    triples.filter(|t: BazelTripleView| triple_chosen(repr, allowed, t)).map_values(
        |t: BazelTripleView| t.triple,
    )
}

proof fn lemma_matching_triples_push(
    repr: Text,
    triples: Seq<BazelTripleView>,
    allowed: Option<Seq<Text>>,
    t: BazelTripleView,
)
    ensures
        matching_triples(repr, triples.push(t), allowed) == (if triple_chosen(repr, allowed, t) {
            matching_triples(repr, triples, allowed).push(t.triple)
        } else {
            matching_triples(repr, triples, allowed)
        }),
{
    reveal(Seq::filter);
    assert(triples.push(t).drop_last() =~= triples);
    assert(matching_triples(repr, triples.push(t), allowed) =~= (if triple_chosen(
        repr,
        allowed,
        t,
    ) {
        matching_triples(repr, triples, allowed).push(t.triple)
    } else {
        matching_triples(repr, triples, allowed)
    }));
}

/// The names of the supported targets that match `platform`; only those in `allowed`, where it is
/// given.
pub fn get_matching_bazel_triples(
    platform: &Platform,
    triples: &Vec<BazelTriple>,
    allowed: &Option<Vec<String>>,
) -> (r: Vec<String>)
    ensures
        r.deep_view() == matching_triples(
            platform.deep_view(),
            triples.deep_view(),
            allowed.deep_view(),
        ),
{
    let mut r: Vec<String> = Vec::new();
    let ghost all = triples.deep_view();
    let mut i: usize = 0;
    proof {
        reveal(Seq::filter);
        assert(all.take(0).len() == 0);
        assert(r.deep_view() =~= matching_triples(
            platform.deep_view(),
            all.take(0),
            allowed.deep_view(),
        ));
    }
    while i < triples.len()
        invariant
            all == triples.deep_view(),
            i <= triples.len(),
            r.deep_view() == matching_triples(
                platform.deep_view(),
                all.take(i as int),
                allowed.deep_view(),
            ),
        decreases triples.len() - i,
    {
        let t = &triples[i];
        let wanted = match allowed {
            Some(names) => contains_text(names, t.triple.as_str()),
            None => true,
        };
        proof {
            lemma_matching_triples_push(
                platform.deep_view(),
                all.take(i as int),
                allowed.deep_view(),
                t.deep_view(),
            );
            assert(all.take(i as int).push(t.deep_view()) =~= all.take(i + 1));
        }
        let ghost before = r.deep_view();
        if platform.matches(t.triple.as_str(), &t.cfgs) && wanted {
            r.push(t.triple.clone());
            assert(r.deep_view() =~= before.push(t.triple@));
        }
        i = i + 1;
    }
    assert(all.take(i as int) =~= all);
    r
}

} // verus!
