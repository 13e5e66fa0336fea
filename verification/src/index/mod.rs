//! The ignore-pattern engine and file-selection logic: partition raw ignore
//! lines into negative and positive (override) patterns, compile the three
//! glob matchers, and decide which working-tree paths are indexable.
//!
//! Walking the working tree is the caller's concern; the decision procedure
//! here takes root-relative path strings.

use vstd::prelude::*;
use vstd::string::*;

use crate::errors::ObjectError;

verus! {

#[verifier::external_type_specification]
#[verifier::external_body]
pub struct ExGlob(globset::Glob);

#[verifier::external_type_specification]
#[verifier::external_body]
pub struct ExGlobSet(globset::GlobSet);

#[verifier::external_type_specification]
#[verifier::external_body]
pub struct ExGlobSetBuilder(globset::GlobSetBuilder);

#[verifier::external_type_specification]
#[verifier::external_body]
pub struct ExGlobError(globset::Error);

/// The pattern string a compiled glob was built from.
pub uninterp spec fn glob_pattern(g: globset::Glob) -> Seq<char>;

/// The pattern strings a glob set holds, in the order they were added.
pub uninterp spec fn globset_patterns(s: globset::GlobSet) -> Seq<Seq<char>>;

/// The pattern strings added to a glob set builder so far, in order.
pub uninterp spec fn builder_patterns(b: globset::GlobSetBuilder) -> Seq<Seq<char>>;

/// Whether a pattern string is syntactically valid glob syntax.
pub uninterp spec fn glob_syntax_ok(pattern: Seq<char>) -> bool;

/// Whether the glob engine can assemble a compiled set from these pattern
/// strings. Assembly is a function of the pattern strings alone; it can
/// fail inside the regex engine (for example on size limits) even where
/// every pattern is syntactically valid, so its outcome is named rather
/// than modeled.
pub uninterp spec fn globset_build_ok(patterns: Seq<Seq<char>>) -> bool;

/// Whether a glob pattern matches a path, under standard glob semantics
/// (`*` within a path segment, `**` across segments, separators literal).
/// The matching algorithm is not modeled; the name stands for the matcher's
/// answer, which depends on the pattern and the path alone.
pub uninterp spec fn glob_match(pattern: Seq<char>, path: Seq<char>) -> bool;

/// Whether any pattern of a set matches the path.
pub open spec fn set_matches(patterns: Seq<Seq<char>>, path: Seq<char>) -> bool {
    exists|i: int| 0 <= i < patterns.len() && glob_match(patterns[i], path)
}

/// Every pattern of the set is syntactically valid glob syntax.
pub open spec fn all_syntax_ok(patterns: Seq<Seq<char>>) -> bool {
    forall|i: int| 0 <= i < patterns.len() ==> glob_syntax_ok(#[trigger] patterns[i])
}

/// Relies on `globset::Glob::new`: it succeeds exactly on syntactically
/// valid patterns, and the compiled glob carries that pattern.
#[verifier::external_body]
fn glob_new(pattern: &str) -> (r: Result<globset::Glob, globset::Error>)
    ensures
        r matches Ok(g) ==> glob_pattern(g) == pattern@ && glob_syntax_ok(pattern@),
        r is Err ==> !glob_syntax_ok(pattern@),
{
    globset::Glob::new(pattern)
}

/// Relies on `globset::GlobSetBuilder::new`: a fresh builder holds no
/// patterns.
#[verifier::external_body]
fn globset_builder_new() -> (b: globset::GlobSetBuilder)
    ensures
        builder_patterns(b) == Seq::<Seq<char>>::empty(),
{
    globset::GlobSetBuilder::new()
}

/// Relies on `globset::GlobSetBuilder::add`: it appends the glob's pattern
/// to the builder.
#[verifier::external_body]
fn globset_builder_add(b: &mut globset::GlobSetBuilder, g: globset::Glob)
    ensures
        builder_patterns(*final(b)) == builder_patterns(*old(b)).push(glob_pattern(g)),
{
    b.add(g);
}

/// Relies on `globset::GlobSetBuilder::build`: on success the set holds
/// exactly the patterns added so far, and whether building succeeds is a
/// function of those patterns alone (it can still fail inside the regex
/// engine, for example on size limits).
#[verifier::external_body]
fn globset_builder_build(b: &globset::GlobSetBuilder) -> (r: Result<
    globset::GlobSet,
    globset::Error,
>)
    ensures
        r matches Ok(s) ==> globset_patterns(s) == builder_patterns(*b) && globset_build_ok(
            builder_patterns(*b),
        ),
        r is Err ==> !globset_build_ok(builder_patterns(*b)),
{
    b.build()
}

/// Relies on `globset::GlobSet::is_match`: true exactly when some glob of
/// the set matches the path.
#[verifier::external_body]
fn globset_is_match(s: &globset::GlobSet, path: &str) -> (r: bool)
    ensures
        r == (exists|i: int|
            0 <= i < globset_patterns(*s).len() && glob_match(globset_patterns(*s)[i], path@)),
{
    s.is_match(path)
}

/// The built-in pattern excluding the repository's internal metadata
/// subtree from indexing.
pub open spec fn metadata_pattern() -> Seq<char> {
    ".wn/**/*"@
}

/// The positive (override) patterns of a sequence of raw ignore lines: the
/// lines starting with `'!'`, with the `'!'` stripped, in file order.
pub open spec fn positive_patterns(lines: Seq<Seq<char>>) -> Seq<Seq<char>>
    decreases lines.len(),
{
    if lines.len() == 0 {
        Seq::empty()
    } else {
        let rest = positive_patterns(lines.drop_last());
        let l = lines.last();
        if l.len() > 0 && l[0] == '!' {
            rest.push(l.skip(1))
        } else {
            rest
        }
    }
}

/// The negative patterns of a sequence of raw ignore lines: the nonempty
/// lines not starting with `'!'`, in file order (without the built-in
/// metadata pattern).
pub open spec fn negative_patterns(lines: Seq<Seq<char>>) -> Seq<Seq<char>>
    decreases lines.len(),
{
    if lines.len() == 0 {
        Seq::empty()
    } else {
        let rest = negative_patterns(lines.drop_last());
        let l = lines.last();
        if l.len() > 0 && l[0] != '!' {
            rest.push(l)
        } else {
            rest
        }
    }
}

/// Partition raw ignore lines into positive (override) and negative
/// patterns. A line starting with `'!'` is positive, with the `'!'`
/// stripped; any other nonempty line is negative; empty lines carry no
/// pattern. The negative set always begins with the built-in metadata
/// pattern, and file order is preserved within each set.
pub fn partition_patterns(lines: &Vec<String>) -> (r: (Vec<String>, Vec<String>))
    ensures
        r.0.deep_view() == positive_patterns(lines.deep_view()),
        r.1.deep_view() == seq![metadata_pattern()] + negative_patterns(lines.deep_view()),
{
    let mut positive: Vec<String> = Vec::new();
    let mut negative: Vec<String> = Vec::new();
    negative.push(String::from_str(".wn/**/*"));
    proof {
        assert(positive.deep_view() =~~= positive_patterns(lines.deep_view().take(0)));
        assert(negative.deep_view() =~~= seq![metadata_pattern()] + negative_patterns(
            lines.deep_view().take(0),
        ));
    }
    let mut i: usize = 0;
    while i < lines.len()
        invariant
            0 <= i <= lines@.len(),
            positive.deep_view() == positive_patterns(lines.deep_view().take(i as int)),
            negative.deep_view() == seq![metadata_pattern()] + negative_patterns(
                lines.deep_view().take(i as int),
            ),
        decreases lines@.len() - i,
    {
        let ghost prev_pos = positive.deep_view();
        let ghost prev_neg = negative.deep_view();
        let line = &lines[i];
        let n = line.unicode_len();
        proof {
            assert(lines.deep_view().take(i + 1).drop_last() =~= lines.deep_view().take(i as int));
            assert(lines.deep_view().take(i + 1).last() == line@);
        }
        if n > 0 && line.as_str().get_char(0) == '!' {
            let tail = line.as_str().substring_char(1, n);
            positive.push(String::from_str(tail));
            proof {
                assert(positive.deep_view() =~~= prev_pos.push(line@.skip(1)));
            }
        } else if n > 0 {
            negative.push(line.clone());
            proof {
                assert(negative.deep_view() =~~= prev_neg.push(line@));
            }
        }
        i = i + 1;
    }
    proof {
        assert(lines.deep_view().take(i as int) =~= lines.deep_view());
    }
    (positive, negative)
}

/// The three compiled matchers of the ignore-pattern engine.
pub struct Matchers {
    /// Paths excluded by default.
    pub negative: globset::GlobSet,
    /// Paths force-included, overriding a negative match.
    pub positive: globset::GlobSet,
    /// The caller's filter, an independent axis of selection.
    pub filter: globset::GlobSet,
}

impl Matchers {
    /// The negative pattern set.
    pub open spec fn neg_patterns(self) -> Seq<Seq<char>> {
        globset_patterns(self.negative)
    }

    /// The positive (override) pattern set.
    pub open spec fn pos_patterns(self) -> Seq<Seq<char>> {
        globset_patterns(self.positive)
    }

    /// The filter pattern set.
    pub open spec fn filter_patterns(self) -> Seq<Seq<char>> {
        globset_patterns(self.filter)
    }
}

/// Compile one pattern set. Succeeds exactly where every pattern is valid
/// glob syntax and the engine can assemble the set.
fn build_set(patterns: &Vec<String>) -> (r: Result<globset::GlobSet, ObjectError>)
    ensures
        r is Ok <==> all_syntax_ok(patterns.deep_view()) && globset_build_ok(
            patterns.deep_view(),
        ),
        r matches Ok(s) ==> globset_patterns(s) == patterns.deep_view(),
        r matches Err(e) ==> e == ObjectError::PatternCompileError,
{
    let mut b = globset_builder_new();
    let mut i: usize = 0;
    proof {
        assert(builder_patterns(b) =~= patterns.deep_view().take(0));
    }
    while i < patterns.len()
        invariant
            0 <= i <= patterns@.len(),
            builder_patterns(b) == patterns.deep_view().take(i as int),
            forall|k: int| 0 <= k < i ==> glob_syntax_ok(#[trigger] patterns.deep_view()[k]),
        decreases patterns@.len() - i,
    {
        let g = match glob_new(patterns[i].as_str()) {
            Ok(g) => g,
            Err(_) => {
                proof {
                    assert(!glob_syntax_ok(patterns.deep_view()[i as int]));
                }
                return Err(ObjectError::PatternCompileError);
            },
        };
        proof {
            assert(glob_syntax_ok(patterns.deep_view()[i as int]));
        }
        globset_builder_add(&mut b, g);
        proof {
            assert(patterns.deep_view().take(i + 1) =~= patterns.deep_view().take(i as int).push(
                patterns@[i as int]@,
            ));
        }
        i = i + 1;
    }
    proof {
        assert(patterns.deep_view().take(i as int) =~= patterns.deep_view());
    }
    match globset_builder_build(&b) {
        Ok(s) => Ok(s),
        Err(_) => Err(ObjectError::PatternCompileError),
    }
}

/// Compile the three matchers: the negative and positive ignore-pattern
/// sets, and the caller's filter pattern. Succeeds exactly where every
/// pattern is valid glob syntax and the engine can assemble each set; any
/// invalid pattern surfaces as a pattern-compile error.
pub fn compile_matchers(negative: &Vec<String>, positive: &Vec<String>, filter: &str) -> (r:
    Result<Matchers, ObjectError>)
    ensures
        r is Ok <==> all_syntax_ok(negative.deep_view()) && globset_build_ok(
            negative.deep_view(),
        ) && all_syntax_ok(positive.deep_view()) && globset_build_ok(positive.deep_view())
            && glob_syntax_ok(filter@) && globset_build_ok(seq![filter@]),
        r matches Ok(m) ==> m.neg_patterns() == negative.deep_view() && m.pos_patterns()
            == positive.deep_view() && m.filter_patterns() == seq![filter@],
        r matches Err(e) ==> e == ObjectError::PatternCompileError,
{
    let neg = match build_set(negative) {
        Ok(s) => s,
        Err(e) => {
            return Err(e);
        },
    };
    let pos = match build_set(positive) {
        Ok(s) => s,
        Err(e) => {
            return Err(e);
        },
    };
    let fg = match glob_new(filter) {
        Ok(g) => g,
        Err(_) => {
            return Err(ObjectError::PatternCompileError);
        },
    };
    let mut fb = globset_builder_new();
    globset_builder_add(&mut fb, fg);
    proof {
        assert(builder_patterns(fb) =~= seq![filter@]);
    }
    let filt = match globset_builder_build(&fb) {
        Ok(s) => s,
        Err(_) => {
            return Err(ObjectError::PatternCompileError);
        },
    };
    proof {
        assert(globset_patterns(filt) =~= seq![filter@]);
    }
    Ok(Matchers { negative: neg, positive: pos, filter: filt })
}

/// The match decision for a path, in this exact precedence order: a path
/// that does not match the filter is excluded; otherwise a path that
/// matches the negative set and not the positive set is excluded; otherwise
/// the path is included. A positive match overrides a negative one, never
/// the reverse, and the filter is an independent axis.
pub open spec fn indexable(
    negative: Seq<Seq<char>>,
    positive: Seq<Seq<char>>,
    filter: Seq<Seq<char>>,
    path: Seq<char>,
) -> bool {
    set_matches(filter, path) && (!set_matches(negative, path) || set_matches(positive, path))
}

/// Decide whether a root-relative path is indexable, by the three-step
/// precedence of [`indexable`].
pub fn is_indexable(m: &Matchers, path: &str) -> (r: bool)
    ensures
        r == indexable(m.neg_patterns(), m.pos_patterns(), m.filter_patterns(), path@),
{
    if !globset_is_match(&m.filter, path) {
        return false;
    }
    if globset_is_match(&m.negative, path) && !globset_is_match(&m.positive, path) {
        return false;
    }
    true
}

/// Keep exactly the indexable paths, in their given order.
pub fn select_files(m: &Matchers, paths: &Vec<String>) -> (r: Vec<String>)
    ensures
        r.deep_view() == paths.deep_view().filter(
            |p: Seq<char>|
                indexable(m.neg_patterns(), m.pos_patterns(), m.filter_patterns(), p),
        ),
{
    let ghost pred = |p: Seq<char>|
        indexable(m.neg_patterns(), m.pos_patterns(), m.filter_patterns(), p);
    let mut r: Vec<String> = Vec::new();
    let mut i: usize = 0;
    proof {
        reveal(Seq::filter);
        assert(paths.deep_view().take(0).filter(pred) =~= Seq::<Seq<char>>::empty());
        assert(r.deep_view() =~~= paths.deep_view().take(0).filter(pred));
    }
    while i < paths.len()
        invariant
            0 <= i <= paths@.len(),
            r.deep_view() == paths.deep_view().take(i as int).filter(pred),
            pred == (|p: Seq<char>|
                indexable(m.neg_patterns(), m.pos_patterns(), m.filter_patterns(), p)),
        decreases paths@.len() - i,
    {
        let ghost prev = r.deep_view();
        let included = is_indexable(m, paths[i].as_str());
        proof {
            paths.deep_view().take(i as int).lemma_filter_push(paths@[i as int]@, pred);
            assert(paths.deep_view().take(i + 1) =~= paths.deep_view().take(i as int).push(
                paths@[i as int]@,
            ));
            assert(pred(paths@[i as int]@) == included);
        }
        if included {
            r.push(paths[i].clone());
            proof {
                assert(r.deep_view() =~~= prev.push(paths@[i as int]@));
            }
        }
        i = i + 1;
    }
    proof {
        assert(paths.deep_view().take(i as int) =~= paths.deep_view());
    }
    r
}

/// Tie-break: a path that matches both a negative and a positive pattern is
/// included (the positive set overrides the negative, never the reverse),
/// provided the filter admits it.
pub proof fn lemma_positive_overrides_negative(
    negative: Seq<Seq<char>>,
    positive: Seq<Seq<char>>,
    filter: Seq<Seq<char>>,
    path: Seq<char>,
)
    requires
        set_matches(filter, path),
        set_matches(positive, path),
    ensures
        indexable(negative, positive, filter, path),
{
}

/// Filter independence: a path the filter does not match is excluded,
/// whatever the ignore patterns say of it.
pub proof fn lemma_filter_excludes(
    negative: Seq<Seq<char>>,
    positive: Seq<Seq<char>>,
    filter: Seq<Seq<char>>,
    path: Seq<char>,
)
    requires
        !set_matches(filter, path),
    ensures
        !indexable(negative, positive, filter, path),
{
}

/// Metadata exclusion: a path that the built-in metadata pattern matches is
/// never indexable under a negative set that carries that pattern, whatever
/// the ignore file contributed, unless a positive pattern overrides it.
pub proof fn lemma_metadata_excluded(
    negative: Seq<Seq<char>>,
    positive: Seq<Seq<char>>,
    filter: Seq<Seq<char>>,
    path: Seq<char>,
)
    requires
        negative.contains(metadata_pattern()),
        glob_match(metadata_pattern(), path),
        !set_matches(positive, path),
    ensures
        !indexable(negative, positive, filter, path),
{
    let i = choose|i: int| 0 <= i < negative.len() && negative[i] == metadata_pattern();
    assert(set_matches(negative, path));
}

/// The path of the ignore-rule file under a repository root.
pub fn wnignore_path(root: &str) -> (r: String)
    ensures
        r@ == root@ + "/.wnignore"@,
{
    let mut out = String::from_str(root);
    out.append("/.wnignore");
    out
}

} // verus!
