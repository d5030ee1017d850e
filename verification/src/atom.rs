//! The atom parser and model.
//!
//! An atom is written `[<op>]category/package[-version]`.  The grammar is
//! tried in two steps, mirroring a greedy, rightmost-boundary match:
//!
//! 1. *Versioned form*: a non-empty leading run of the operator characters
//!    `<`, `=`, `>`, then `category/package-version`.  The split between
//!    package and version is the rightmost hyphen that is followed by a
//!    digit-led suffix (the version begins with a digit and may hold
//!    arbitrary trailing characters), and the split between
//!    category and package is the rightmost slash left of that hyphen.  If
//!    the leading operator run is not one of the five recognized tokens,
//!    parsing fails with an invalid-operator error.
//! 2. *Unversioned form*: `category/package`, split at the rightmost slash
//!    with text on both sides.
//!
//! If neither form matches, parsing fails with an invalid-atom error.

use vstd::prelude::*;

verus! {

/// A comparison operator attached to a versioned atom.
///
/// The five variants are in total bijection with the textual tokens
/// `<`, `<=`, `=`, `>=`, `>` (see [`op_token`] and [`token_op`]).
#[derive(Clone, Copy, PartialEq, Eq, Structural, Debug)]
pub enum AtomVersionOperator {
    LessThan,
    LessOrEqual,
    Equal,
    GreaterOrEqual,
    GreaterThan,
}

/// A version constraint: a comparison operator and an opaque version string,
/// stored verbatim for round-trip display.
pub type AtomVersionConstraint = (AtomVersionOperator, String);

/// Why a piece of text failed to parse as an atom.
#[derive(Debug)]
pub enum ParseError {
    /// The versioned form matched, but its leading operator run is not one
    /// of the five recognized tokens.
    InvalidVersionOperator { token: String },
    /// The text matches neither grammar form.
    InvalidAtom { text: String },
}

/// The mathematical value of a [`ParseError`].
#[verifier::ext_equal]
pub enum ParseErrorView {
    InvalidVersionOperator { token: Seq<char> },
    InvalidAtom { text: Seq<char> },
}

impl View for ParseError {
    type V = ParseErrorView;

    open spec fn view(&self) -> ParseErrorView {
        match self {
            ParseError::InvalidVersionOperator { token } => ParseErrorView::InvalidVersionOperator {
                token: token@,
            },
            ParseError::InvalidAtom { text } => ParseErrorView::InvalidAtom { text: text@ },
        }
    }
}

/// The mathematical value of an [`Atom`]: its three fields as sequences of
/// characters.
#[verifier::ext_equal]
pub struct AtomView {
    pub category: Seq<char>,
    pub package: Seq<char>,
    pub version_constraint: Option<(AtomVersionOperator, Seq<char>)>,
}

/// A package specifier: category, package name, and an optional version
/// constraint.  Immutable once constructed; equality is structural over all
/// three fields.
#[derive(Debug)]
pub struct Atom {
    category: String,
    package: String,
    version_constraint: Option<AtomVersionConstraint>,
}

/// The value of an optional version constraint.
pub open spec fn constraint_view(vc: Option<AtomVersionConstraint>) -> Option<
    (AtomVersionOperator, Seq<char>),
> {
    match vc {
        Some((op, v)) => Some((op, v@)),
        None => None,
    }
}

impl View for Atom {
    type V = AtomView;

    closed spec fn view(&self) -> AtomView {
        AtomView {
            category: self.category@,
            package: self.package@,
            version_constraint: constraint_view(self.version_constraint),
        }
    }
}

/// The characters that may form a leading operator run.
pub open spec fn is_op_char(c: char) -> bool {
    c == '<' || c == '=' || c == '>'
}

/// An ASCII decimal digit.
pub open spec fn is_digit_char(c: char) -> bool {
    48 <= c as u32 && c as u32 <= 57
}

/// The textual token of an operator.
pub open spec fn op_token(op: AtomVersionOperator) -> Seq<char> {
    match op {
        AtomVersionOperator::LessThan => seq!['<'],
        AtomVersionOperator::LessOrEqual => seq!['<', '='],
        AtomVersionOperator::Equal => seq!['='],
        AtomVersionOperator::GreaterOrEqual => seq!['>', '='],
        AtomVersionOperator::GreaterThan => seq!['>'],
    }
}

/// The operator denoted by a textual token, if any.
pub open spec fn token_op(t: Seq<char>) -> Option<AtomVersionOperator> {
    if t.len() == 1 && t[0] == '<' {
        Some(AtomVersionOperator::LessThan)
    } else if t.len() == 2 && t[0] == '<' && t[1] == '=' {
        Some(AtomVersionOperator::LessOrEqual)
    } else if t.len() == 1 && t[0] == '=' {
        Some(AtomVersionOperator::Equal)
    } else if t.len() == 2 && t[0] == '>' && t[1] == '=' {
        Some(AtomVersionOperator::GreaterOrEqual)
    } else if t.len() == 1 && t[0] == '>' {
        Some(AtomVersionOperator::GreaterThan)
    } else {
        None
    }
}

/// Length of the run of operator characters starting at position `i`.
pub open spec fn op_run(s: Seq<char>, i: int) -> int
    decreases s.len() - i,
{
    if 0 <= i < s.len() && is_op_char(s[i]) {
        1 + op_run(s, i + 1)
    } else {
        0
    }
}

/// Position `m` starts a version boundary: a hyphen followed by a digit.
pub open spec fn is_dver_at(s: Seq<char>, m: int) -> bool {
    0 <= m && m + 2 <= s.len() && s[m] == '-' && is_digit_char(s[m + 1])
}

/// The rightmost version boundary strictly below `k`, if any.
pub open spec fn find_dver(s: Seq<char>, k: int) -> Option<int>
    decreases k,
{
    if k <= 0 {
        None
    } else if is_dver_at(s, k - 1) {
        Some(k - 1)
    } else {
        find_dver(s, k - 1)
    }
}

/// The rightmost slash at a position in `[lo, k)`, if any.
pub open spec fn find_slash(s: Seq<char>, k: int, lo: int) -> Option<int>
    recommends
        k <= s.len(),
    decreases k - lo,
{
    if k <= lo {
        None
    } else if s[k - 1] == '/' {
        Some(k - 1)
    } else {
        find_slash(s, k - 1, lo)
    }
}

/// The unversioned fallback: split at the rightmost slash that has text on
/// both sides.
pub open spec fn spec_parse_unversioned(s: Seq<char>) -> Result<AtomView, ParseErrorView> {
    match find_slash(s, s.len() as int - 1, 1) {
        Some(j) => Ok(
            AtomView {
                category: s.subrange(0, j),
                package: s.subrange(j + 1, s.len() as int),
                version_constraint: None,
            },
        ),
        None => Err(ParseErrorView::InvalidAtom { text: s }),
    }
}

/// The versioned form, given the version boundary `m` and the slash `j`:
/// the operator run is capped at `j - 1` so that the category is non-empty.
pub open spec fn spec_parse_versioned(s: Seq<char>, p0: int, j: int, m: int) -> Result<
    AtomView,
    ParseErrorView,
> {
    let p = if p0 <= j - 1 {
        p0
    } else {
        j - 1
    };
    let tok = s.subrange(0, p);
    match token_op(tok) {
        Some(op) => Ok(
            AtomView {
                category: s.subrange(p, j),
                package: s.subrange(j + 1, m),
                version_constraint: Some((op, s.subrange(m + 1, s.len() as int))),
            },
        ),
        None => Err(ParseErrorView::InvalidVersionOperator { token: tok }),
    }
}

/// What parsing a piece of text yields: the atom of the versioned form when a
/// leading operator run, a slash and a version boundary are all present, else
/// the unversioned fallback, else an error.
pub open spec fn spec_parse(s: Seq<char>) -> Result<AtomView, ParseErrorView> {
    let p0 = op_run(s, 0);
    if p0 >= 1 {
        match find_dver(s, s.len() as int) {
            Some(m) => match find_slash(s, m - 1, 2) {
                Some(j) => spec_parse_versioned(s, p0, j, m),
                None => spec_parse_unversioned(s),
            },
            None => spec_parse_unversioned(s),
        }
    } else {
        spec_parse_unversioned(s)
    }
}

/// The canonical text of an atom: operator token (if any), category, slash,
/// package, and hyphen-version (if any), in that fixed order.
pub open spec fn spec_render(a: AtomView) -> Seq<char> {
    match a.version_constraint {
        Some((op, v)) => op_token(op) + a.category + seq!['/'] + a.package + seq!['-'] + v,
        None => a.category + seq!['/'] + a.package,
    }
}

/// The `category/package` key of an atom, as matched against the world file.
pub open spec fn world_key(a: AtomView) -> Seq<char> {
    a.category + seq!['/'] + a.package
}

/// An operator run is exactly the longest prefix of operator characters: if
/// the characters of `[i, n)` are operator characters and position `n` is the
/// end of the text or a different character, the run from `i` has length
/// `n - i`.
proof fn lemma_op_run_is(s: Seq<char>, i: int, n: int)
    requires
        0 <= i <= n <= s.len(),
        forall|k: int| i <= k < n ==> is_op_char(#[trigger] s[k]),
        n == s.len() || !is_op_char(s[n]),
    ensures
        op_run(s, i) == n - i,
    decreases n - i,
{
    if i < n {
        lemma_op_run_is(s, i + 1, n);
    }
}

/// What `find_dver` returns: the rightmost version boundary below `k`, or
/// `None` when there is none.
proof fn lemma_find_dver_char(s: Seq<char>, k: int)
    ensures
        match find_dver(s, k) {
            Some(m) => is_dver_at(s, m) && m < k && forall|t: int|
                m < t < k ==> !is_dver_at(s, t),
            None => forall|t: int| t < k ==> !is_dver_at(s, t),
        },
    decreases k,
{
    if k > 0 && !is_dver_at(s, k - 1) {
        lemma_find_dver_char(s, k - 1);
    }
}

/// What `find_slash` returns: the rightmost slash at a position in
/// `[lo, k)`, or `None` when there is none.
proof fn lemma_find_slash_char(s: Seq<char>, k: int, lo: int)
    requires
        0 <= lo,
        k <= s.len(),
    ensures
        match find_slash(s, k, lo) {
            Some(j) => lo <= j < k && s[j] == '/' && forall|t: int|
                j < t < k ==> s[t] != '/',
            None => forall|t: int| lo <= t < k ==> s[t] != '/',
        },
    decreases k - lo,
{
    if k > lo && s[k - 1] != '/' {
        lemma_find_slash_char(s, k - 1, lo);
    }
}

/// Rendering an operator and reading the token back yields the operator.
pub proof fn lemma_op_token_id(op: AtomVersionOperator)
    ensures
        token_op(op_token(op)) == Some(op),
{
}

/// A token denotes at most one operator, and that operator renders back to
/// the very token: the five operators are in bijection with their tokens.
pub proof fn lemma_token_op_inverse(t: Seq<char>, op: AtomVersionOperator)
    requires
        token_op(t) == Some(op),
    ensures
        op_token(op) == t,
{
    assert(op_token(op) =~= t);
}

/// Length of the leading operator run of `s`.
fn count_leading_ops(s: &str) -> (n: usize)
    ensures
        n == op_run(s@, 0),
        n <= s@.len(),
{
    let len = s.unicode_len();
    let mut i: usize = 0;
    while i < len
        invariant
            0 <= i <= len,
            len == s@.len(),
            forall|k: int| 0 <= k < i ==> is_op_char(#[trigger] s@[k]),
        decreases len - i,
    {
        let c = s.get_char(i);
        if !(c == '<' || c == '=' || c == '>') {
            proof {
                lemma_op_run_is(s@, 0, i as int);
            }
            return i;
        }
        i = i + 1;
    }
    proof {
        lemma_op_run_is(s@, 0, len as int);
    }
    i
}

/// The rightmost version boundary in `s`, scanning from the right.
fn find_dver_exec(s: &str) -> (r: Option<usize>)
    ensures
        match r {
            Some(m) => find_dver(s@, s@.len() as int) == Some(m as int),
            None => find_dver(s@, s@.len() as int) is None,
        },
{
    let len = s.unicode_len();
    let mut k: usize = len;
    while k > 0
        invariant
            0 <= k <= len,
            len == s@.len(),
            find_dver(s@, len as int) == find_dver(s@, k as int),
        decreases k,
    {
        let hit = k < len && s.get_char(k - 1) == '-' && {
            let d = s.get_char(k) as u32;
            48 <= d && d <= 57
        };
        if hit {
            assert(is_dver_at(s@, k - 1));
            return Some(k - 1);
        }
        assert(!is_dver_at(s@, k - 1));
        k = k - 1;
    }
    None
}

/// The rightmost slash at a position in `[lo, k)`, scanning from the right.
fn find_slash_exec(s: &str, k: usize, lo: usize) -> (r: Option<usize>)
    requires
        k <= s@.len(),
    ensures
        match r {
            Some(j) => find_slash(s@, k as int, lo as int) == Some(j as int),
            None => find_slash(s@, k as int, lo as int) is None,
        },
{
    let mut kk: usize = k;
    while kk > lo
        invariant
            kk <= s@.len(),
            find_slash(s@, k as int, lo as int) == find_slash(s@, kk as int, lo as int),
        decreases kk,
    {
        if s.get_char(kk - 1) == '/' {
            return Some(kk - 1);
        }
        kk = kk - 1;
    }
    None
}

/// The operator tokens are short runs of operator characters.
proof fn lemma_op_token_chars(op: AtomVersionOperator)
    ensures
        1 <= op_token(op).len() <= 2,
        forall|k: int| 0 <= k < op_token(op).len() ==> is_op_char(#[trigger] op_token(op)[k]),
{
    match op {
        AtomVersionOperator::LessThan => {
            assert(is_op_char(op_token(op)[0]));
        },
        AtomVersionOperator::LessOrEqual => {
            assert(is_op_char(op_token(op)[0]));
            assert(is_op_char(op_token(op)[1]));
        },
        AtomVersionOperator::Equal => {
            assert(is_op_char(op_token(op)[0]));
        },
        AtomVersionOperator::GreaterOrEqual => {
            assert(is_op_char(op_token(op)[0]));
            assert(is_op_char(op_token(op)[1]));
        },
        AtomVersionOperator::GreaterThan => {
            assert(is_op_char(op_token(op)[0]));
        },
    }
}

/// Round-trip half for the unversioned form.
proof fn lemma_roundtrip_unversioned(s: Seq<char>, a: AtomView)
    requires
        spec_parse_unversioned(s) == Ok::<AtomView, ParseErrorView>(a),
    ensures
        spec_render(a) == s,
{
    lemma_find_slash_char(s, s.len() as int - 1, 1);
    let j = find_slash(s, s.len() as int - 1, 1).unwrap();
    assert(spec_render(a) =~= s);
}

/// Round-trip: any text that parses successfully renders back to itself.
/// In particular every atom parsed from its own canonical text round-trips.
pub proof fn lemma_parse_render_roundtrip(s: Seq<char>, a: AtomView)
    requires
        spec_parse(s) == Ok::<AtomView, ParseErrorView>(a),
    ensures
        spec_render(a) == s,
{
    let p0 = op_run(s, 0);
    lemma_find_dver_char(s, s.len() as int);
    if p0 >= 1 && find_dver(s, s.len() as int) is Some {
        let m = find_dver(s, s.len() as int).unwrap();
        lemma_find_slash_char(s, m - 1, 2);
        if find_slash(s, m - 1, 2) is Some {
            let j = find_slash(s, m - 1, 2).unwrap();
            let p = if p0 <= j - 1 {
                p0
            } else {
                j - 1
            };
            let tok = s.subrange(0, p);
            match token_op(tok) {
                Some(op) => {
                    lemma_token_op_inverse(tok, op);
                    assert(spec_render(a) =~= s);
                },
                None => {},
            }
        } else {
            lemma_roundtrip_unversioned(s, a);
        }
    } else {
        lemma_roundtrip_unversioned(s, a);
    }
}

/// A category/package pair without a version suffix parses to an atom with
/// no version constraint, provided the category does not begin with an
/// operator character and the package holds no slash.  (With an operator-led
/// category, or a digit-led hyphen suffix, the versioned form could take
/// over instead.)
pub proof fn lemma_parse_unversioned(cat: Seq<char>, pkg: Seq<char>)
    requires
        cat.len() >= 1,
        !is_op_char(cat[0]),
        pkg.len() >= 1,
        forall|i: int| 0 <= i < pkg.len() ==> pkg[i] != '/',
    ensures
        spec_parse(cat + seq!['/'] + pkg) == Ok::<AtomView, ParseErrorView>(
            AtomView { category: cat, package: pkg, version_constraint: None },
        ),
{
    let s = cat + seq!['/'] + pkg;
    let len = s.len() as int;
    let j = cat.len() as int;
    assert(s[0] == cat[0]);
    assert(op_run(s, 0) == 0);
    assert(s[j] == '/');
    lemma_find_slash_char(s, len - 1, 1);
    assert forall|t: int| j < t < len - 1 implies s[t] != '/' by {
        assert(s[t] == pkg[t - j - 1]);
    }
    match find_slash(s, len - 1, 1) {
        Some(j2) => {
            if j2 > j {
                assert(s[j2] == pkg[j2 - j - 1]);
            }
            assert(j2 == j);
            assert(s.subrange(0, j) =~= cat);
            assert(s.subrange(j + 1, len) =~= pkg);
        },
        None => {
            assert(s[j] == '/');
        },
    }
}

/// An operator token followed by `category/package-version` parses to the
/// versioned atom with exactly that operator and version string, provided
/// the category does not begin with an operator character, the package
/// holds no slash, and the version begins with a digit and holds no
/// digit-led hyphen boundary of its own (such a boundary would shift the
/// rightmost-hyphen split).
pub proof fn lemma_parse_versioned(
    op: AtomVersionOperator,
    cat: Seq<char>,
    pkg: Seq<char>,
    ver: Seq<char>,
)
    requires
        cat.len() >= 1,
        !is_op_char(cat[0]),
        pkg.len() >= 1,
        forall|i: int| 0 <= i < pkg.len() ==> pkg[i] != '/',
        ver.len() >= 1,
        is_digit_char(ver[0]),
        forall|i: int|
            #![trigger ver[i]]
            0 <= i <= ver.len() - 2 ==> !(ver[i] == '-' && is_digit_char(ver[i + 1])),
    ensures
        spec_parse(op_token(op) + cat + seq!['/'] + pkg + seq!['-'] + ver) == Ok::<
            AtomView,
            ParseErrorView,
        >(AtomView { category: cat, package: pkg, version_constraint: Some((op, ver)) }),
{
    lemma_op_token_chars(op);
    let tok = op_token(op);
    let s = tok + cat + seq!['/'] + pkg + seq!['-'] + ver;
    let len = s.len() as int;
    let p = tok.len() as int;
    let j = p + cat.len() as int;
    let m = j + 1 + pkg.len() as int;

    let h1 = tok + cat;
    let h2 = h1 + seq!['/'];
    let h3 = h2 + pkg;
    let h4 = h3 + seq!['-'];
    assert(h1.len() == j);
    assert(h2.len() == j + 1);
    assert(h3.len() == m);
    assert(h4.len() == m + 1);
    assert(s == h4 + ver);
    assert(len == m + 1 + ver.len());

    // The leading operator run is exactly the token.
    assert forall|k: int| 0 <= k < p implies is_op_char(#[trigger] s[k]) by {
        assert(s[k] == h1[k]);
        assert(h1[k] == tok[k]);
    }
    assert(s[p] == h1[p]);
    assert(h1[p] == cat[0]);
    lemma_op_run_is(s, 0, p);

    // The rightmost version boundary is the hyphen before `ver`.
    assert(s[m] == h4[m]);
    assert(h4[m] == '-');
    assert(s[m + 1] == ver[0]);
    assert(is_dver_at(s, m));
    assert forall|t: int| m < t < len implies !is_dver_at(s, t) by {
        if t + 2 <= len {
            assert(s[t] == ver[t - m - 1]);
            assert(s[t + 1] == ver[t - m]);
        }
    }
    lemma_find_dver_char(s, len);
    match find_dver(s, len) {
        Some(m2) => {
            assert(m2 == m);
        },
        None => {
            assert(is_dver_at(s, m));
        },
    }

    // The rightmost slash below the boundary is the one after `cat`.
    assert(s[j] == h2[j]);
    assert(h2[j] == '/');
    assert forall|t: int| j < t < m - 1 implies s[t] != '/' by {
        assert(s[t] == h3[t]);
        assert(h3[t] == pkg[t - j - 1]);
    }
    lemma_find_slash_char(s, m - 1, 2);
    match find_slash(s, m - 1, 2) {
        Some(j2) => {
            if j2 > j {
                assert(s[j2] == h3[j2]);
                assert(h3[j2] == pkg[j2 - j - 1]);
            }
            assert(j2 == j);
        },
        None => {
            assert(s[j] == '/');
        },
    }

    // The operator run is not capped: the category is non-empty.
    assert(p <= j - 1);
    assert forall|k: int| 0 <= k < p implies s[k] == tok[k] by {
        assert(s[k] == h1[k]);
        assert(h1[k] == tok[k]);
    }
    assert(s.subrange(0, p) =~= tok);
    lemma_op_token_id(op);
    assert forall|k: int| p <= k < j implies s[k] == cat[k - p] by {
        assert(s[k] == h1[k]);
        assert(h1[k] == cat[k - p]);
    }
    assert(s.subrange(p, j) =~= cat);
    assert forall|k: int| j + 1 <= k < m implies s[k] == pkg[k - j - 1] by {
        assert(s[k] == h3[k]);
        assert(h3[k] == pkg[k - j - 1]);
    }
    assert(s.subrange(j + 1, m) =~= pkg);
    assert forall|k: int| m + 1 <= k < len implies s[k] == ver[k - m - 1] by {
        assert(s[k] == ver[k - m - 1]);
    }
    assert(s.subrange(m + 1, len) =~= ver);
}

impl AtomVersionOperator {
    /// Reads an operator from its textual token; any other text is an
    /// invalid-operator error naming that text.
    pub fn try_from(s: &str) -> (r: Result<AtomVersionOperator, ParseError>)
        ensures
            (match token_op(s@) {
                Some(op) => r == Ok::<AtomVersionOperator, ParseError>(op),
                None => r matches Err(e) && e@ == (ParseErrorView::InvalidVersionOperator {
                    token: s@,
                }),
            }),
    {
        let len = s.unicode_len();
        if len == 1 {
            let c = s.get_char(0);
            if c == '<' {
                return Ok(AtomVersionOperator::LessThan);
            }
            if c == '=' {
                return Ok(AtomVersionOperator::Equal);
            }
            if c == '>' {
                return Ok(AtomVersionOperator::GreaterThan);
            }
        } else if len == 2 {
            let c0 = s.get_char(0);
            let c1 = s.get_char(1);
            if c0 == '<' && c1 == '=' {
                return Ok(AtomVersionOperator::LessOrEqual);
            }
            if c0 == '>' && c1 == '=' {
                return Ok(AtomVersionOperator::GreaterOrEqual);
            }
        }
        Err(ParseError::InvalidVersionOperator { token: s.to_owned() })
    }

    /// The textual token of this operator.
    pub fn token(&self) -> (r: &'static str)
        ensures
            r@ == op_token(*self),
    {
        proof {
            reveal_strlit("<");
            reveal_strlit("<=");
            reveal_strlit("=");
            reveal_strlit(">=");
            reveal_strlit(">");
        }
        match self {
            AtomVersionOperator::LessThan => {
                let r = "<";
                assert(r@ =~= op_token(*self));
                r
            },
            AtomVersionOperator::LessOrEqual => {
                let r = "<=";
                assert(r@ =~= op_token(*self));
                r
            },
            AtomVersionOperator::Equal => {
                let r = "=";
                assert(r@ =~= op_token(*self));
                r
            },
            AtomVersionOperator::GreaterOrEqual => {
                let r = ">=";
                assert(r@ =~= op_token(*self));
                r
            },
            AtomVersionOperator::GreaterThan => {
                let r = ">";
                assert(r@ =~= op_token(*self));
                r
            },
        }
    }
}

impl Atom {
    /// Builds an atom from its three fields, verbatim.
    pub fn new(category: String, package: String, version_constraint: Option<
        AtomVersionConstraint,
    >) -> (a: Atom)
        ensures
            a@ == (AtomView {
                category: category@,
                package: package@,
                version_constraint: constraint_view(version_constraint),
            }),
    {
        Atom { category, package, version_constraint }
    }

    /// Parses a piece of text as an atom, per [`spec_parse`].
    pub fn try_from(s: &str) -> (r: Result<Atom, ParseError>)
        ensures
            (match spec_parse(s@) {
                Ok(av) => r matches Ok(a) && a@ == av,
                Err(ev) => r matches Err(e) && e@ == ev,
            }),
    {
        let len = s.unicode_len();
        let p0 = count_leading_ops(s);
        if p0 >= 1 {
            if let Some(m) = find_dver_exec(s) {
                proof {
                    lemma_find_dver_char(s@, len as int);
                }
                let slash = if m >= 1 {
                    find_slash_exec(s, m - 1, 2)
                } else {
                    assert(find_slash(s@, m - 1, 2) is None);
                    None
                };
                if let Some(j) = slash {
                    proof {
                        lemma_find_slash_char(s@, m - 1, 2);
                    }
                    let p = if p0 <= j - 1 {
                        p0
                    } else {
                        j - 1
                    };
                    let tok = s.substring_char(0, p);
                    match AtomVersionOperator::try_from(tok) {
                        Ok(op) => {
                            let category = s.substring_char(p, j).to_owned();
                            let package = s.substring_char(j + 1, m).to_owned();
                            let version = s.substring_char(m + 1, len).to_owned();
                            Ok(Atom { category, package, version_constraint: Some((op, version)) })
                        },
                        Err(e) => Err(e),
                    }
                } else {
                    Self::parse_unversioned(s, len)
                }
            } else {
                Self::parse_unversioned(s, len)
            }
        } else {
            Self::parse_unversioned(s, len)
        }
    }

    /// The unversioned fallback, per [`spec_parse_unversioned`].
    fn parse_unversioned(s: &str, len: usize) -> (r: Result<Atom, ParseError>)
        requires
            len == s@.len(),
        ensures
            (match spec_parse_unversioned(s@) {
                Ok(av) => r matches Ok(a) && a@ == av,
                Err(ev) => r matches Err(e) && e@ == ev,
            }),
    {
        let slash = if len >= 1 {
            find_slash_exec(s, len - 1, 1)
        } else {
            assert(find_slash(s@, len as int - 1, 1) is None);
            None
        };
        proof {
            lemma_find_slash_char(s@, len as int - 1, 1);
        }
        match slash {
            Some(j) => {
                let category = s.substring_char(0, j).to_owned();
                let package = s.substring_char(j + 1, len).to_owned();
                Ok(Atom { category, package, version_constraint: None })
            },
            None => Err(ParseError::InvalidAtom { text: s.to_owned() }),
        }
    }

    /// Renders the atom back to its canonical text, per [`spec_render`].
    pub fn render(&self) -> (r: String)
        ensures
            r@ == spec_render(self@),
    {
        let mut out = String::new();
        match &self.version_constraint {
            Some(vc) => {
                out.append(vc.0.token());
            },
            None => {},
        }
        out.append(self.category.as_str());
        proof {
            reveal_strlit("/");
        }
        out.append("/");
        out.append(self.package.as_str());
        match &self.version_constraint {
            Some(vc) => {
                proof {
                    reveal_strlit("-");
                }
                out.append("-");
                out.append(vc.1.as_str());
            },
            None => {},
        }
        proof {
            assert(out@ =~= spec_render(self@));
        }
        out
    }

    /// The `category/package` key of this atom, per [`world_key`].
    pub fn category_package(&self) -> (r: String)
        ensures
            r@ == world_key(self@),
    {
        let mut out = String::new();
        out.append(self.category.as_str());
        proof {
            reveal_strlit("/");
        }
        out.append("/");
        out.append(self.package.as_str());
        proof {
            assert(out@ =~= world_key(self@));
        }
        out
    }

    /// Whether the world file, given as its lines, records this atom's
    /// `category/package` pair as an exact line.
    pub fn in_world_set(&self, world_lines: &Vec<String>) -> (r: bool)
        ensures
            r == exists|i: int|
                0 <= i < world_lines@.len() && world_lines@[i]@ == world_key(self@),
    {
        let key = self.category_package();
        let n = world_lines.len();
        let mut i: usize = 0;
        while i < n
            invariant
                0 <= i <= n,
                n == world_lines@.len(),
                key@ == world_key(self@),
                forall|k: int| 0 <= k < i ==> world_lines@[k]@ != world_key(self@),
            decreases n - i,
        {
            if world_lines[i] == key {
                return true;
            }
            i = i + 1;
        }
        false
    }
}

impl PartialEq for Atom {
    /// Structural equality over category, package, and version constraint.
    fn eq(&self, other: &Atom) -> (r: bool) {
        let cat_eq = self.category == other.category;
        let pkg_eq = self.package == other.package;
        let vc_eq = match (&self.version_constraint, &other.version_constraint) {
            (Some(a), Some(b)) => a.0 == b.0 && a.1 == b.1,
            (None, None) => true,
            _ => false,
        };
        let r = cat_eq && pkg_eq && vc_eq;
        proof {
            if r {
                assert(self@ =~= other@);
            }
        }
        r
    }
}

impl Eq for Atom {

}

impl vstd::std_specs::cmp::PartialEqSpecImpl for Atom {
    open spec fn obeys_eq_spec() -> bool {
        true
    }

    open spec fn eq_spec(&self, other: &Atom) -> bool {
        self@ == other@
    }
}

} // verus!
