//! Text: how strings are compared, ordered, joined and rewritten.

use vstd::prelude::*;

verus! {

/// What a string holds.
pub type Text = Seq<char>;

/// `String::push` puts one character behind the others.
pub assume_specification[ String::push ](s: &mut String, c: char)
    ensures
        final(s)@ == old(s)@.push(c),
;

/// Lexicographic order by code point, strict.
pub open spec fn text_before(a: Text, b: Text) -> bool
    decreases a.len(),
{
    if b.len() == 0 {
        false
    } else if a.len() == 0 {
        true
    } else if a[0] != b[0] {
        a[0] < b[0]
    } else {
        text_before(a.drop_first(), b.drop_first())
    }
}

/// Lexicographic order by code point.
pub open spec fn text_le(a: Text, b: Text) -> bool {
    !text_before(b, a)
}

/// No text comes before itself, and of two different texts exactly one comes before the other.
pub proof fn lemma_text_order_total(a: Text, b: Text)
    ensures
        !text_before(a, a),
        a == b ==> !text_before(a, b),
        a != b ==> text_before(a, b) != text_before(b, a),
    decreases a.len(),
{
    if a.len() > 0 {
        if b.len() > 0 {
            lemma_text_order_total(a.drop_first(), b.drop_first());
            if a[0] == b[0] && a.drop_first() == b.drop_first() {
                assert(a =~= seq![a[0]] + a.drop_first());
                assert(b =~= seq![b[0]] + b.drop_first());
            }
        } else {
            lemma_text_order_total(a.drop_first(), b);
        }
    } else if b.len() == 0 {
        assert(a =~= b);
    }
}

/// The order of texts is transitive.
pub proof fn lemma_text_order_transitive(a: Text, b: Text, c: Text)
    requires
        text_le(a, b),
        text_le(b, c),
    ensures
        text_le(a, c),
    decreases a.len(),
{
    if a.len() > 0 && b.len() > 0 && c.len() > 0 && a[0] == b[0] && b[0] == c[0] {
        lemma_text_order_transitive(a.drop_first(), b.drop_first(), c.drop_first());
    }
}

/// A text comes before another exactly if they agree up to some place, and there the one ends and the
/// other does not, or the one has the smaller character.
pub proof fn lemma_text_order_is_by_first_difference(a: Text, b: Text)
    ensures
        text_before(a, b) <==> exists|n: int|
            {
                &&& 0 <= n < b.len()
                &&& n <= a.len()
                &&& #[trigger] a.take(n) == b.take(n)
                &&& n < a.len() ==> a[n] < b[n]
            },
    decreases a.len(),
{
    if b.len() > 0 {
        if a.len() == 0 || a[0] != b[0] {
            assert(a.take(0) =~= b.take(0));
            assert forall|n: int|
                0 <= n < b.len() && n <= a.len() && #[trigger] a.take(n) == b.take(n) implies n
                == 0 by {
                if n > 0 {
                    assert(a.take(n)[0] == b.take(n)[0]);
                }
            }
        } else {
            let x = a.drop_first();
            let y = b.drop_first();
            lemma_text_order_is_by_first_difference(x, y);
            if text_before(a, b) {
                let m = choose|m: int|
                    {
                        &&& 0 <= m < y.len()
                        &&& m <= x.len()
                        &&& #[trigger] x.take(m) == y.take(m)
                        &&& m < x.len() ==> x[m] < y[m]
                    };
                assert(a.take(m + 1) =~= seq![a[0]] + x.take(m));
                assert(b.take(m + 1) =~= seq![b[0]] + y.take(m));
            }
            if exists|n: int|
                {
                    &&& 0 <= n < b.len()
                    &&& n <= a.len()
                    &&& #[trigger] a.take(n) == b.take(n)
                    &&& n < a.len() ==> a[n] < b[n]
                } {
                let n = choose|n: int|
                    {
                        &&& 0 <= n < b.len()
                        &&& n <= a.len()
                        &&& #[trigger] a.take(n) == b.take(n)
                        &&& n < a.len() ==> a[n] < b[n]
                    };
                assert(n > 0);
                assert(x.take(n - 1) =~= a.take(n).drop_first());
                assert(y.take(n - 1) =~= b.take(n).drop_first());
                assert(x.take(n - 1) == y.take(n - 1));
            }
        }
    }
}

/// The characters of `s`.
pub fn chars_of(s: &str) -> (r: Vec<char>)
    ensures
        r@ == s@,
{
    let mut r: Vec<char> = Vec::new();
    for c in it: s.chars()
        invariant
            it.seq() == s@,
            r@ == it.seq().take(it.index()),
    {
        r.push(c);
    }
    r
}

/// Whether `a` comes strictly before `b`.
pub fn is_before(a: &str, b: &str) -> (r: bool)
    ensures
        r == text_before(a@, b@),
{
    let ca = chars_of(a);
    let cb = chars_of(b);
    let mut i: usize = 0;
    assert(a@.skip(0) == a@ && b@.skip(0) == b@);
    while i < ca.len() && i < cb.len()
        invariant
            ca@ == a@,
            cb@ == b@,
            i <= ca.len(),
            i <= cb.len(),
            text_before(a@, b@) == text_before(a@.skip(i as int), b@.skip(i as int)),
        decreases ca.len() - i,
    {
        if ca[i] != cb[i] {
            return ca[i] < cb[i];
        }
        assert(a@.skip(i as int).drop_first() == a@.skip(i + 1));
        assert(b@.skip(i as int).drop_first() == b@.skip(i + 1));
        i = i + 1;
    }
    i < cb.len()
}

/// Whether `a` and `b` hold the same text.
pub fn same_text(a: &str, b: &str) -> (r: bool)
    ensures
        r == (a@ == b@),
{
    a.to_owned() == b.to_owned()
}

/// Whether `s` is one of `texts`.
pub fn contains_text(texts: &Vec<String>, s: &str) -> (r: bool)
    ensures
        r == texts.deep_view().contains(s@),
{
    let mut i: usize = 0;
    while i < texts.len()
        invariant
            i <= texts.len(),
            forall|j: int| 0 <= j < i ==> texts.deep_view()[j] != s@,
        decreases texts.len() - i,
    {
        if same_text(texts[i].as_str(), s) {
            assert(texts.deep_view()[i as int] == s@);
            return true;
        }
        i = i + 1;
    }
    false
}

/// The two options hold the same text, or neither holds one.
pub fn same_optional_text(a: &Option<String>, b: &Option<String>) -> (r: bool)
    ensures
        r == (a.deep_view() == b.deep_view()),
{
    match (a, b) {
        (Some(x), Some(y)) => same_text(x.as_str(), y.as_str()),
        (None, None) => true,
        _ => false,
    }
}

/// A copy of a list of strings.
pub fn copy_texts(texts: &Vec<String>) -> (r: Vec<String>)
    ensures
        r.deep_view() == texts.deep_view(),
{
    let r = texts.clone();
    assert(r.deep_view() =~= texts.deep_view());
    r
}

/// A copy of an optional string.
pub fn copy_optional_text(text: &Option<String>) -> (r: Option<String>)
    ensures
        r.deep_view() == text.deep_view(),
{
    match text {
        Some(t) => Some(t.clone()),
        None => None,
    }
}

/// The characters that a Bazel identifier may hold.
pub open spec fn is_ident_char(c: char) -> bool {
    'a' <= c <= 'z' || 'A' <= c <= 'Z' || '0' <= c <= '9' || c == '_'
}

/// A text with every character that a Bazel identifier may not hold turned into an underscore.
pub open spec fn sanitized(s: Text) -> Text {
    s.map_values(|c: char| if is_ident_char(c) { c } else { '_' })
}

/// Sanitizes a name for use as a Bazel identifier.
pub fn sanitize_ident(ident: &str) -> (r: String)
    ensures
        r@ == sanitized(ident@),
{
    let chars = chars_of(ident);
    let mut r = String::new();
    let mut i: usize = 0;
    while i < chars.len()
        invariant
            chars@ == ident@,
            i <= chars.len(),
            r@ == sanitized(ident@).take(i as int),
        decreases chars.len() - i,
    {
        let c = chars[i];
        let keep = ('a' <= c && c <= 'z') || ('A' <= c && c <= 'Z') || ('0' <= c && c <= '9') || c
            == '_';
        let ghost before = r@;
        if keep {
            r.push(c);
        } else {
            r.push('_');
        }
        assert(sanitized(ident@).take(i + 1) =~= before.push(sanitized(ident@)[i as int]));
        i = i + 1;
    }
    assert(sanitized(ident@).take(i as int) =~= sanitized(ident@));
    r
}

/// A sanitized name is as long as the name, holds nothing but identifier characters (so no dot
/// and no hyphen), and is left alone when it is sanitized again. A name made of identifier
/// characters is left alone too.
pub proof fn lemma_sanitized(s: Text)
    ensures
        sanitized(s).len() == s.len(),
        forall|i: int| 0 <= i < s.len() ==> is_ident_char(#[trigger] sanitized(s)[i]),
        !sanitized(s).contains('.'),
        !sanitized(s).contains('-'),
        sanitized(sanitized(s)) == sanitized(s),
        (forall|i: int| 0 <= i < s.len() ==> is_ident_char(#[trigger] s[i])) ==> sanitized(s) == s,
{
    assert forall|i: int| 0 <= i < s.len() implies is_ident_char(#[trigger] sanitized(s)[i]) by {}
    assert(sanitized(sanitized(s)) =~= sanitized(s));
    if forall|i: int| 0 <= i < s.len() ==> is_ident_char(#[trigger] s[i]) {
        assert(sanitized(s) =~= s);
    }
}

/// Sanitizing keeps letters, digits and underscores of ASCII where they stand, and puts an underscore
/// in place of every other character.
pub proof fn lemma_sanitized_char(s: Text, i: int)
    requires
        0 <= i < s.len(),
    ensures
        sanitized(s).len() == s.len(),
        sanitized(s)[i] == (if 'a' <= s[i] <= 'z' || 'A' <= s[i] <= 'Z' || '0' <= s[i] <= '9' {
            s[i]
        } else {
            '_'
        }),
{
}

/// `s` from its first character that is not a slash.
pub open spec fn without_leading_slashes(s: Text) -> Text
    decreases s.len(),
{
    if s.len() > 0 && s[0] == '/' {
        without_leading_slashes(s.drop_first())
    } else {
        s
    }
}

/// Drops the slashes that `s` begins with.
pub fn trim_leading_slashes(s: &str) -> (r: String)
    ensures
        r@ == without_leading_slashes(s@),
{
    let chars = chars_of(s);
    let mut i: usize = 0;
    assert(s@.skip(0) == s@);
    while i < chars.len() && chars[i] == '/'
        invariant
            chars@ == s@,
            i <= chars.len(),
            without_leading_slashes(s@) == without_leading_slashes(s@.skip(i as int)),
        decreases chars.len() - i,
    {
        assert(s@.skip(i as int).drop_first() == s@.skip(i + 1));
        i = i + 1;
    }
    s.substring_char(i, chars.len()).to_owned()
}

/// Only slashes are dropped, and all that come first.
pub proof fn lemma_without_leading_slashes(s: Text)
    ensures
        exists|n: int|
            {
                &&& 0 <= n <= s.len()
                &&& without_leading_slashes(s) == #[trigger] s.skip(n)
                &&& forall|i: int| 0 <= i < n ==> #[trigger] s[i] == '/'
                &&& n < s.len() ==> s[n] != '/'
            },
    decreases s.len(),
{
    if s.len() > 0 && s[0] == '/' {
        let rest = s.drop_first();
        lemma_without_leading_slashes(rest);
        let m = choose|m: int|
            {
                &&& 0 <= m <= rest.len()
                &&& without_leading_slashes(rest) == #[trigger] rest.skip(m)
                &&& forall|i: int| 0 <= i < m ==> #[trigger] rest[i] == '/'
                &&& m < rest.len() ==> rest[m] != '/'
            };
        assert(s.skip(m + 1) =~= rest.skip(m));
        assert forall|i: int| 0 <= i < m + 1 implies #[trigger] s[i] == '/' by {
            if i > 0 {
                assert(rest[i - 1] == '/');
            }
        }
    } else {
        assert(s.skip(0) =~= s);
    }
}

/// `s` with every occurrence of `pattern`, taken from the left and without overlaps, turned into
/// `replacement`.
pub open spec fn replaced(s: Text, pattern: Text, replacement: Text) -> Text
    recommends
        pattern.len() > 0,
    decreases s.len(),
{
    if s.len() == 0 {
        s
    } else if pattern.len() > 0 && pattern.is_prefix_of(s) {
        replacement + replaced(s.skip(pattern.len() as int), pattern, replacement)
    } else {
        seq![s[0]] + replaced(s.drop_first(), pattern, replacement)
    }
}

/// Replaces every occurrence of `pattern` in `s`.
pub fn replace_text(s: &str, pattern: &str, replacement: &str) -> (r: String)
    requires
        pattern@.len() > 0,
    ensures
        r@ == replaced(s@, pattern@, replacement@),
{
    let chars = chars_of(s);
    let pat = chars_of(pattern);
    let mut r = String::new();
    let mut i: usize = 0;
    assert(s@.skip(0) == s@);
    while i < chars.len()
        invariant
            chars@ == s@,
            pat@ == pattern@,
            pat.len() > 0,
            i <= chars.len(),
            replaced(s@, pattern@, replacement@) == r@ + replaced(
                s@.skip(i as int),
                pattern@,
                replacement@,
            ),
        decreases chars.len() - i,
    {
        let mut j: usize = 0;
        while j < pat.len() && j < chars.len() - i && chars[i + j] == pat[j]
            invariant
                i <= chars.len(),
                j <= pat.len(),
                j <= chars.len() - i,
                forall|k: int| 0 <= k < j ==> #[trigger] pat@[k] == chars@.skip(i as int)[k],
            decreases pat.len() - j,
        {
            j = j + 1;
        }
        let ghost rest = s@.skip(i as int);
        let ghost before = r@;
        if j == pat.len() {
            assert(pattern@ =~= rest.subrange(0, pattern@.len() as int));
            assert(rest.skip(pattern@.len() as int) =~= s@.skip(i + j));
            r.append(replacement);
            i = i + j;
        } else {
            assert(!pattern@.is_prefix_of(rest)) by {
                if pattern@.is_prefix_of(rest) {
                    assert(rest.subrange(0, pattern@.len() as int)[j as int] == pat@[j as int]);
                }
            }
            assert(rest.drop_first() =~= s@.skip(i + 1));
            r.push(chars[i]);
            assert(before.push(rest[0]) =~= before + seq![rest[0]]);
            i = i + 1;
        }
        assert(replaced(s@, pattern@, replacement@) =~= r@ + replaced(
            s@.skip(i as int),
            pattern@,
            replacement@,
        ));
    }
    assert(r@ =~= r@ + replaced(s@.skip(i as int), pattern@, replacement@));
    r
}

/// The texts, one after the other, with `sep` between them, read from the front.
pub open spec fn spliced(pieces: Seq<Text>, sep: Text) -> Text
    decreases pieces.len(),
{
    if pieces.len() == 0 {
        Seq::empty()
    } else if pieces.len() == 1 {
        pieces[0]
    } else {
        pieces[0] + sep + spliced(pieces.drop_first(), sep)
    }
}

/// Whether `pattern` begins at one of the first `n` places of `s`.
pub open spec fn begins_before(s: Text, pattern: Text, n: int) -> bool {
    exists|i: int| 0 <= i < n && pattern.is_prefix_of(#[trigger] s.skip(i))
}

/// Whether `s` is these pieces with `pattern` between them, each piece up to the next place at which
/// the pattern begins.
pub open spec fn is_cut_at(s: Text, pattern: Text, pieces: Seq<Text>) -> bool {
    &&& pieces.len() > 0
    &&& s == spliced(pieces, pattern)
    &&& forall|k: int|
        0 <= k < pieces.len() - 1 ==> !begins_before(
            (#[trigger] pieces[k]) + pattern,
            pattern,
            pieces[k].len() as int,
        )
    &&& !begins_before(pieces.last(), pattern, pieces.last().len() as int)
}

/// Replacing a pattern cuts a text at every place where the pattern stands, and joins the pieces with
/// the replacement instead.
pub proof fn lemma_replaced(s: Text, pattern: Text, replacement: Text) -> (pieces: Seq<Text>)
    requires
        pattern.len() > 0,
    ensures
        is_cut_at(s, pattern, pieces),
        replaced(s, pattern, replacement) == spliced(pieces, replacement),
    decreases s.len(),
{
    if s.len() == 0 {
        seq![s]
    } else if pattern.is_prefix_of(s) {
        let tail = s.skip(pattern.len() as int);
        let cut = lemma_replaced(tail, pattern, replacement);
        lemma_empty_piece(s, pattern, cut);
        lemma_spliced_after(Seq::empty(), cut, replacement);
        seq![Seq::empty()] + cut
    } else {
        let cut = lemma_replaced(s.drop_first(), pattern, replacement);
        lemma_longer_piece(s, pattern, cut);
        lemma_spliced_longer(s[0], cut, replacement);
        cut.update(0, seq![s[0]] + cut[0])
    }
}

proof fn lemma_spliced_after(first: Text, pieces: Seq<Text>, sep: Text)
    requires
        pieces.len() > 0,
    ensures
        spliced(seq![first] + pieces, sep) == first + (sep + spliced(pieces, sep)),
{
    assert((seq![first] + pieces).drop_first() =~= pieces);
    assert(first + sep + spliced(pieces, sep) =~= first + (sep + spliced(pieces, sep)));
}

proof fn lemma_spliced_longer(c: char, pieces: Seq<Text>, sep: Text)
    requires
        pieces.len() > 0,
    ensures
        spliced(pieces.update(0, seq![c] + pieces[0]), sep) == seq![c] + spliced(pieces, sep),
{
    let longer = pieces.update(0, seq![c] + pieces[0]);
    assert(longer.drop_first() =~= pieces.drop_first());
    if pieces.len() > 1 {
        let rest = spliced(pieces.drop_first(), sep);
        assert((seq![c] + pieces[0]) + sep + rest =~= seq![c] + (pieces[0] + sep + rest));
    }
}

proof fn lemma_empty_piece(s: Text, pattern: Text, cut: Seq<Text>)
    requires
        pattern.len() > 0,
        pattern.is_prefix_of(s),
        is_cut_at(s.skip(pattern.len() as int), pattern, cut),
    ensures
        is_cut_at(s, pattern, seq![Seq::empty()] + cut),
{
    let nothing: Text = Seq::empty();
    let pieces = seq![nothing] + cut;
    lemma_spliced_after(nothing, cut, pattern);
    assert(s =~= pattern + s.skip(pattern.len() as int)) by {
        assert(pattern =~= s.subrange(0, pattern.len() as int));
    }
    assert(nothing + s =~= s);
    assert(pieces.last() == cut.last());
    assert forall|k: int| 0 <= k < pieces.len() - 1 implies !begins_before(
        (#[trigger] pieces[k]) + pattern,
        pattern,
        pieces[k].len() as int,
    ) by {
        if k > 0 {
            assert(pieces[k] == cut[k - 1]);
        }
    }
}

proof fn lemma_begins_no_earlier(c: char, inner: Text, pattern: Text, n: int)
    requires
        !pattern.is_prefix_of(seq![c] + inner),
        !begins_before(inner, pattern, n),
        0 <= n <= inner.len(),
    ensures
        !begins_before(seq![c] + inner, pattern, n + 1),
{
    let whole = seq![c] + inner;
    if begins_before(whole, pattern, n + 1) {
        let i = choose|i: int| 0 <= i < n + 1 && pattern.is_prefix_of(#[trigger] whole.skip(i));
        if i == 0 {
            assert(whole.skip(0) =~= whole);
        } else {
            assert(whole.skip(i) =~= inner.skip(i - 1));
        }
    }
}

proof fn lemma_longer_piece(s: Text, pattern: Text, cut: Seq<Text>)
    requires
        s.len() > 0,
        pattern.len() > 0,
        !pattern.is_prefix_of(s),
        is_cut_at(s.drop_first(), pattern, cut),
    ensures
        is_cut_at(s, pattern, cut.update(0, seq![s[0]] + cut[0])),
{
    let c = s[0];
    let first = seq![c] + cut[0];
    let pieces = cut.update(0, first);
    assert(seq![c] + s.drop_first() =~= s);
    if cut.len() == 1 {
        assert(s == first);
        assert(cut.last() == cut[0]);
        lemma_begins_no_earlier(c, cut[0], pattern, cut[0].len() as int);
        assert(pieces.last() == first);
    } else {
        let inner = cut[0] + pattern;
        let rest = spliced(cut.drop_first(), pattern);
        lemma_spliced_longer(c, cut, pattern);
        assert(s == seq![c] + (inner + rest));
        assert(s =~= (seq![c] + inner) + rest);
        assert(!pattern.is_prefix_of(seq![c] + inner)) by {
            if pattern.is_prefix_of(seq![c] + inner) {
                assert((seq![c] + inner).subrange(0, pattern.len() as int) =~= s.subrange(
                    0,
                    pattern.len() as int,
                ));
            }
        }
        lemma_begins_no_earlier(c, inner, pattern, cut[0].len() as int);
        assert(first + pattern =~= seq![c] + inner);
        assert(pieces.last() == cut.last());
        assert forall|k: int| 0 <= k < pieces.len() - 1 implies !begins_before(
            (#[trigger] pieces[k]) + pattern,
            pattern,
            pieces[k].len() as int,
        ) by {
            if k > 0 {
                assert(pieces[k] == cut[k]);
            }
        }
    }
}

/// Whether `s` ends with `suffix`.
pub fn ends_with(s: &str, suffix: &str) -> (r: bool)
    ensures
        r == suffix@.is_suffix_of(s@),
{
    let chars = chars_of(s);
    let tail = chars_of(suffix);
    if tail.len() > chars.len() {
        return false;
    }
    let from: usize = chars.len() - tail.len();
    let ghost end = s@.subrange(from as int, s@.len() as int);
    let mut i: usize = 0;
    while i < tail.len()
        invariant
            chars@ == s@,
            tail@ == suffix@,
            from == chars.len() - tail.len(),
            end == s@.subrange(from as int, s@.len() as int),
            i <= tail.len() <= chars.len(),
            forall|j: int| 0 <= j < i ==> end[j] == suffix@[j],
        decreases tail.len() - i,
    {
        if chars[from + i] != tail[i] {
            assert(end[i as int] != suffix@[i as int]);
            return false;
        }
        i = i + 1;
    }
    assert(end =~= suffix@);
    true
}

/// The texts, one after the other, with `sep` between them.
pub open spec fn joined(texts: Seq<Text>, sep: Text) -> Text
    decreases texts.len(),
{
    if texts.len() == 0 {
        Seq::empty()
    } else if texts.len() == 1 {
        texts[0]
    } else {
        joined(texts.drop_last(), sep) + sep + texts.last()
    }
}

/// Calls `itertools::Itertools::join`. Claimed: it gives the texts, one after the other, with `sep`
/// between them. It reserves room for all the separators at once, so `sep` is kept short.
#[verifier::external_body]
pub(crate) fn itertools_join(texts: &Vec<String>, sep: &str) -> (r: String)
    requires
        sep@.len() <= 4,
    ensures
        r@ == joined(texts.deep_view(), sep@),
{
    itertools::Itertools::join(&mut texts.iter(), sep)
}

/// Texts that are joined read the same from the front as from the back.
pub proof fn lemma_joined(texts: Seq<Text>, sep: Text)
    ensures
        joined(texts, sep) == spliced(texts, sep),
    decreases texts.len(),
{
    if texts.len() > 1 {
        let front = texts.drop_last();
        lemma_joined(front, sep);
        lemma_spliced_push(front, texts.last(), sep);
        assert(front.push(texts.last()) =~= texts);
    }
}

proof fn lemma_spliced_push(texts: Seq<Text>, last: Text, sep: Text)
    requires
        texts.len() > 0,
    ensures
        spliced(texts.push(last), sep) == spliced(texts, sep) + sep + last,
    decreases texts.len(),
{
    let all = texts.push(last);
    reveal_with_fuel(spliced, 2);
    if texts.len() == 1 {
        assert(all.drop_first() =~= seq![last]);
    } else {
        let rest = texts.drop_first();
        lemma_spliced_push(rest, last, sep);
        assert(all.drop_first() =~= rest.push(last));
        assert(texts[0] + sep + (spliced(rest, sep) + sep + last) =~= texts[0] + sep + spliced(
            rest,
            sep,
        ) + sep + last);
    }
}

} // verus!
