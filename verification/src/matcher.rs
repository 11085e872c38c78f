//! The matcher set: built once per invocation from the kind literals and kind
//! patterns supplied on the command line, then consulted for every node of
//! every tree. Pattern matching itself is done by the `regex` crate behind
//! trusted wrappers; everything downstream speaks of the uninterpreted
//! `pattern_accepts` relation those wrappers establish.

use vstd::prelude::*;
use vstd::string::StringExecFns;
use crate::tree::Node;

verus! {

/// Whether `regex::Regex::new` accepts this pattern text: a function of the
/// pattern alone.
pub uninterp spec fn pattern_compiles(pattern: Seq<char>) -> bool;

/// Whether a regular-expression search for `pattern` finds a match inside
/// `text` (search semantics, not anchored equality): a function of the two
/// character sequences alone.
pub uninterp spec fn pattern_accepts(pattern: Seq<char>, text: Seq<char>) -> bool;

#[verifier::external_type_specification]
#[verifier::external_body]
pub struct ExRegex(regex::Regex);

/// One kind pattern, kept together with its compilation. `compiled` is always
/// the compilation of `source`: `compile` below is the only constructor.
pub struct KindPattern {
    source: String,
    compiled: regex::Regex,
}

impl KindPattern {
    /// The pattern text this matcher was compiled from.
    pub closed spec fn source_view(&self) -> Seq<char> {
        self.source@
    }

    /// Relies on regex::Regex::new: compilation succeeds or fails depending
    /// on the pattern text alone.
    #[verifier::external_body]
    pub(crate) fn compile(source: String) -> (r: Option<KindPattern>)
        ensures
            r is Some <==> pattern_compiles(source@),
            r matches Some(p) ==> p.source_view() == source@,
    {
        match regex::Regex::new(&source) {
            Ok(compiled) => Some(KindPattern { source, compiled }),
            Err(_) => None,
        }
    }

    /// Relies on regex::Regex::is_match: whether a search of `text` with the
    /// compiled pattern finds a match, a function of pattern and text alone.
    #[verifier::external_body]
    pub(crate) fn is_match(&self, text: &str) -> (r: bool)
        ensures
            r == pattern_accepts(self.source_view(), text@),
    {
        self.compiled.is_match(text)
    }

    /// The pattern text, for reporting.
    pub fn source(&self) -> (s: &String)
        ensures
            s@ == self.source_view(),
    {
        &self.source
    }
}

/// A kind-pattern string that the regular-expression engine rejected: a
/// configuration error, raised before any file is parsed or counted.
pub struct ConfigError {
    pub pattern: String,
}

impl ConfigError {
    /// A human-readable description of the error.
    pub fn message(&self) -> (m: String)
        ensures
            m@ == "invalid kind pattern: "@ + self.pattern@,
    {
        let mut m = String::from_str("invalid kind pattern: ");
        m.append(self.pattern.as_str());
        m
    }
}

/// The mathematical content of a matcher set: the kind literals and the kind
/// pattern texts, in the order supplied.
#[verifier::ext_equal]
pub ghost struct MatcherModel {
    pub kinds: Seq<Seq<char>>,
    pub patterns: Seq<Seq<char>>,
}

/// The matcher set: the kind literals and the compiled kind patterns. Built
/// once, immutable afterwards, shared by every per-file counting pass.
pub struct MatcherSet {
    kinds: Vec<String>,
    patterns: Vec<KindPattern>,
}

impl View for MatcherSet {
    type V = MatcherModel;

    closed spec fn view(&self) -> MatcherModel {
        MatcherModel {
            kinds: Seq::new(self.kinds@.len(), |i: int| self.kinds@[i]@),
            patterns: Seq::new(self.patterns@.len(), |i: int| self.patterns@[i].source_view()),
        }
    }
}

impl MatcherSet {
    /// Builds the matcher set from the command line's kind literals and kind
    /// pattern strings. The first pattern the engine rejects is reported as a
    /// configuration error; every earlier one compiled.
    pub fn new(kinds: Vec<String>, pattern_sources: Vec<String>) -> (r: Result<
        MatcherSet,
        ConfigError,
    >)
        ensures
            r is Ok <==> (forall|i: int|
                0 <= i < pattern_sources@.len() ==> pattern_compiles(#[trigger] pattern_sources@[i]@)),
            r matches Ok(m) ==> {
                &&& m@.kinds == Seq::new(kinds@.len(), |i: int| kinds@[i]@)
                &&& m@.patterns == Seq::new(pattern_sources@.len(), |i: int| pattern_sources@[i]@)
            },
            r matches Err(e) ==> (exists|i: int|
                {
                    &&& 0 <= i < pattern_sources@.len()
                    &&& !pattern_compiles(#[trigger] pattern_sources@[i]@)
                    &&& e.pattern@ == pattern_sources@[i]@
                    &&& forall|j: int| 0 <= j < i ==> pattern_compiles(#[trigger] pattern_sources@[j]@)
                }),
    {
        let mut patterns: Vec<KindPattern> = Vec::new();
        let mut i: usize = 0;
        while i < pattern_sources.len()
            invariant
                i <= pattern_sources@.len(),
                patterns@.len() == i,
                forall|j: int|
                    0 <= j < i ==> #[trigger] patterns@[j].source_view() == pattern_sources@[j]@,
                forall|j: int| 0 <= j < i ==> pattern_compiles(#[trigger] pattern_sources@[j]@),
            decreases pattern_sources@.len() - i,
        {
            let source = pattern_sources[i].clone();
            match KindPattern::compile(source) {
                Some(p) => {
                    patterns.push(p);
                },
                None => {
                    return Err(ConfigError { pattern: pattern_sources[i].clone() });
                },
            }
            i += 1;
        }
        let m = MatcherSet { kinds, patterns };
        proof {
            assert(m@.kinds =~= Seq::new(kinds@.len(), |i: int| kinds@[i]@));
            assert(m@.patterns =~= Seq::new(pattern_sources@.len(), |i: int| pattern_sources@[i]@));
        }
        Ok(m)
    }

    /// How many kind literals the set holds.
    pub fn num_kinds(&self) -> (n: usize)
        ensures
            n == self@.kinds.len(),
    {
        self.kinds.len()
    }

    /// How many kind patterns the set holds.
    pub fn num_patterns(&self) -> (n: usize)
        ensures
            n == self@.patterns.len(),
    {
        self.patterns.len()
    }

    /// The kind literals, in the order supplied, for reporting.
    pub fn kind_names(&self) -> (v: &Vec<String>)
        ensures
            v@.len() == self@.kinds.len(),
            forall|i: int| 0 <= i < v@.len() ==> (#[trigger] v@[i])@ == self@.kinds[i],
    {
        &self.kinds
    }

    /// The kind pattern texts, in the order supplied, for reporting.
    pub fn pattern_names(&self) -> (v: Vec<String>)
        ensures
            v@.len() == self@.patterns.len(),
            forall|i: int| 0 <= i < v@.len() ==> (#[trigger] v@[i])@ == self@.patterns[i],
    {
        let mut v: Vec<String> = Vec::new();
        let mut i: usize = 0;
        while i < self.patterns.len()
            invariant
                i <= self.patterns@.len(),
                v@.len() == i,
                forall|j: int| 0 <= j < i ==> (#[trigger] v@[j])@ == self@.patterns[j],
            decreases self.patterns@.len() - i,
        {
            v.push(self.patterns[i].source().clone());
            i += 1;
        }
        v
    }

    /// Whether a node counts as a token: exactly the leaves do.
    pub fn is_token(&self, node: &Node) -> (r: bool)
        ensures
            r == (node.children@.len() == 0),
    {
        node.children.len() == 0
    }

    /// The match-groups a node satisfies: one flag per kind literal (exact
    /// equality) and one per kind pattern (regular-expression search), each
    /// decided independently of every other filter.
    pub fn classify(&self, node: &Node) -> (r: (Vec<bool>, Vec<bool>))
        ensures
            r.0@ == Seq::new(self@.kinds.len(), |i: int| self@.kinds[i] == node.kind@),
            r.1@ == Seq::new(
                self@.patterns.len(),
                |i: int| pattern_accepts(self@.patterns[i], node.kind@),
            ),
    {
        let mut kind_flags: Vec<bool> = Vec::new();
        let mut i: usize = 0;
        while i < self.kinds.len()
            invariant
                i <= self.kinds@.len(),
                kind_flags@.len() == i,
                forall|j: int| 0 <= j < i ==> kind_flags@[j] == (self@.kinds[j] == node.kind@),
            decreases self.kinds@.len() - i,
        {
            kind_flags.push(self.kinds[i] == node.kind);
            i += 1;
        }
        let mut pattern_flags: Vec<bool> = Vec::new();
        let mut i: usize = 0;
        while i < self.patterns.len()
            invariant
                i <= self.patterns@.len(),
                pattern_flags@.len() == i,
                forall|j: int|
                    0 <= j < i ==> pattern_flags@[j] == pattern_accepts(
                        self@.patterns[j],
                        node.kind@,
                    ),
            decreases self.patterns@.len() - i,
        {
            pattern_flags.push(self.patterns[i].is_match(node.kind.as_str()));
            i += 1;
        }
        proof {
            assert(kind_flags@ =~= Seq::new(self@.kinds.len(), |i: int| self@.kinds[i] == node.kind@));
            assert(pattern_flags@ =~= Seq::new(
                self@.patterns.len(),
                |i: int| pattern_accepts(self@.patterns[i], node.kind@),
            ));
        }
        (kind_flags, pattern_flags)
    }
}

} // verus!
