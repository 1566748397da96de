//! Discovery: what each `bench.yaml` declares, and which implementations a
//! campaign measures.
//!
//! The manifest is the only source of truth. The path is how a benchmark is
//! found, never what describes one: nothing is parsed out of a directory name.
//! An implementation is identified by what it is — the workload it computes,
//! and the `(language, compiler, interpreter)` that turns it into instructions.
//! Two directories declaring the same identity are one implementation declared
//! twice, and that is an error.
use vstd::prelude::*;

use crate::cli::{eq_ignore_ascii_case, eq_ignore_ascii_case_exec, Architecture};
use crate::document::{
    entry_views, field_views, lemma_positions_give_values, node_opt_text, node_text, node_texts,
    read_fields, read_problem, spelling_views, text_at, texts_at, value_of, ManifestError, Node,
    Shape,
};
use crate::mode::Mode;
use crate::sample::{opt_text, slug_text};
use crate::text::{owned, push_str, trim, trimmed, views};

verus! {

/// The file that declares an implementation.
pub const MANIFEST: &'static str = "bench.yaml";

/// `all`, or an explicit list: how a manifest declares its modes and its
/// architectures.
#[derive(Debug)]
pub enum Declared {
    Keyword(String),
    List(Vec<String>),
}

pub enum DeclaredView {
    Keyword(Seq<char>),
    List(Seq<Seq<char>>),
}

impl View for Declared {
    type V = DeclaredView;

    open spec fn view(&self) -> DeclaredView {
        match self {
            Declared::Keyword(k) => DeclaredView::Keyword(k@),
            Declared::List(v) => DeclaredView::List(views(v@)),
        }
    }
}

/// What `bench.yaml` declares, as written.
#[derive(Debug)]
pub struct Manifest {
    /// The language the kernel is written in.
    pub language: String,
    /// The compiler, when something is compiled ahead of the run.
    pub compiler: Option<String>,
    /// The interpreter or runtime that executes the result, when there is one.
    pub interpreter: Option<String>,
    /// The kernel, relative to the manifest's directory.
    pub source: String,
    /// The modes this backend can be built in: `baseline`, `native`, or both.
    pub modes: Declared,
    /// The architectures this backend can be built on; `all` when unsaid.
    pub architectures: Declared,
    /// What this backend is, in one paragraph.
    pub description: String,
    /// Free-form caveats.
    pub comments: Option<String>,
}

/// The fields of `bench.yaml`: name, shape, and whether it is required.
pub open spec fn bench_fields() -> Seq<(Seq<char>, Shape, bool)> {
    seq![
        ("language"@, Shape::Text, true),
        ("compiler"@, Shape::OptionalText, false),
        ("interpreter"@, Shape::OptionalText, false),
        ("source"@, Shape::Text, true),
        ("modes"@, Shape::TextOrTextList, true),
        ("architectures"@, Shape::TextOrTextList, false),
        ("description"@, Shape::Text, true),
        ("comments"@, Shape::OptionalText, false),
    ]
}

pub open spec fn bench_spellings() -> Seq<(Seq<char>, int)> {
    seq![
        ("language"@, 0),
        ("compiler"@, 1),
        ("interpreter"@, 2),
        ("source"@, 3),
        ("modes"@, 4),
        ("architectures"@, 5),
        ("description"@, 6),
        ("comments"@, 7),
    ]
}

fn bench_field_table() -> (r: Vec<(&'static str, Shape, bool)>)
    ensures
        field_views(r@) == bench_fields(),
{
    let mut t = Vec::new();
    t.push(("language", Shape::Text, true));
    t.push(("compiler", Shape::OptionalText, false));
    t.push(("interpreter", Shape::OptionalText, false));
    t.push(("source", Shape::Text, true));
    t.push(("modes", Shape::TextOrTextList, true));
    t.push(("architectures", Shape::TextOrTextList, false));
    t.push(("description", Shape::Text, true));
    t.push(("comments", Shape::OptionalText, false));
    assert(field_views(t@) =~= bench_fields());
    t
}

fn bench_spelling_table() -> (r: Vec<(&'static str, usize)>)
    ensures
        spelling_views(r@) == bench_spellings(),
{
    let mut t = Vec::new();
    t.push(("language", 0));
    t.push(("compiler", 1));
    t.push(("interpreter", 2));
    t.push(("source", 3));
    t.push(("modes", 4));
    t.push(("architectures", 5));
    t.push(("description", 6));
    t.push(("comments", 7));
    assert(spelling_views(t@) =~= bench_spellings());
    t
}

/// A keyword or a list, as written; `default` when the field is absent.
pub open spec fn declared_of(n: Option<Node>, default: Seq<char>) -> DeclaredView {
    match n {
        Some(Node::Str(s)) => DeclaredView::Keyword(s@),
        Some(Node::List(_)) => DeclaredView::List(node_texts(n)),
        _ => DeclaredView::Keyword(default),
    }
}

impl Manifest {
    /// What a manifest says, read off the entries of its mapping.
    pub open spec fn read_from(self, entries: Seq<(Seq<char>, Node)>) -> bool {
        let sp = bench_spellings();
        &&& self.language@ == node_text(value_of(entries, sp, 0))
        &&& opt_text(self.compiler) == node_opt_text(value_of(entries, sp, 1))
        &&& opt_text(self.interpreter) == node_opt_text(value_of(entries, sp, 2))
        &&& self.source@ == node_text(value_of(entries, sp, 3))
        &&& self.modes@ == declared_of(value_of(entries, sp, 4), "all"@)
        &&& self.architectures@ == declared_of(value_of(entries, sp, 5), "all"@)
        &&& self.description@ == node_text(value_of(entries, sp, 6))
        &&& opt_text(self.comments) == node_opt_text(value_of(entries, sp, 7))
    }

    /// Read a `bench.yaml` document. A misspelled key, a key given twice, a
    /// value of the wrong shape or a missing required field fails: a manifest
    /// that is half-read is worse than no manifest.
    pub fn from_node(node: &Node) -> (r: Result<Manifest, ManifestError>)
        ensures
            match *node {
                Node::Mapping(entries) => match r {
                    Ok(m) => read_problem(
                        entry_views(entries@),
                        bench_fields(),
                        bench_spellings(),
                        true,
                    ) is None && m.read_from(entry_views(entries@)),
                    Err(e) => read_problem(
                        entry_views(entries@),
                        bench_fields(),
                        bench_spellings(),
                        true,
                    ) == Some(e.problem()),
                },
                _ => r matches Err(ManifestError::NotAMapping),
            },
    {
        let entries = match node {
            Node::Mapping(entries) => entries,
            _ => {
                return Err(ManifestError::NotAMapping);
            },
        };
        let fields = bench_field_table();
        let spellings = bench_spelling_table();
        let pos = read_fields(entries, &fields, &spellings, true)?;
        let ghost ev = entry_views(entries@);
        proof {
            lemma_positions_give_values(pos@, ev, bench_fields(), bench_spellings(), true);
            assert forall|f: int| 0 <= f < 8 implies (#[trigger] pos@[f] matches Some(j) ==> j
                < entries@.len()) by {}
        }
        let language = text_at(entries, pos[0]);
        let compiler = text_at(entries, pos[1]);
        let interpreter = text_at(entries, pos[2]);
        let source = text_at(entries, pos[3]);
        let description = text_at(entries, pos[6]);
        let comments = text_at(entries, pos[7]);
        let modes = declared_at(entries, pos[4]);
        let architectures = declared_at(entries, pos[5]);
        let m = Manifest {
            language: unwrap_text(language),
            compiler,
            interpreter,
            source: unwrap_text(source),
            modes,
            architectures,
            description: unwrap_text(description),
            comments,
        };
        Ok(m)
    }
}

impl Manifest {
    /// The kernel file, as the manifest names it without the spaces around it:
    /// relative to the manifest's directory.
    pub fn source_file(&self) -> (r: String)
        ensures
            r@ == trim(self.source@),
    {
        trimmed(self.source.as_str())
    }
}

/// The directories a workload declares as its implementations, relative to
/// the workload's own directory, each without the spaces around it.
pub fn declared_dirs(workload: &crate::workload::Workload) -> (r: Vec<String>)
    ensures
        views(r@) == views(workload.implementations@).map_values(|d: Seq<char>| trim(d)),
{
    let mut r: Vec<String> = Vec::new();
    let mut i: usize = 0;
    while i < workload.implementations.len()
        invariant
            i <= workload.implementations@.len(),
            views(r@) == views(workload.implementations@.take(i as int)).map_values(
                |d: Seq<char>| trim(d),
            ),
        decreases workload.implementations.len() - i,
    {
        let t = trimmed(workload.implementations[i].as_str());
        proof {
            crate::text::lemma_views_push(r@, t);
            crate::text::lemma_views_take(workload.implementations@, i as int);
        }
        r.push(t);
        i += 1;
        assert(views(r@) =~= views(workload.implementations@.take(i as int)).map_values(
            |d: Seq<char>| trim(d),
        ));
    }
    assert(workload.implementations@.take(i as int) =~= workload.implementations@);
    r
}

fn unwrap_text(t: Option<String>) -> (r: String)
    ensures
        r@ == match opt_text(t) {
            Some(s) => s,
            None => Seq::<char>::empty(),
        },
{
    match t {
        Some(s) => s,
        None => String::new(),
    }
}

fn declared_at(entries: &Vec<(String, Node)>, p: Option<usize>) -> (r: Declared)
    requires
        p matches Some(j) ==> j < entries@.len(),
    ensures
        r@ == declared_of(
            match p {
                Some(j) => Some(entries@[j as int].1),
                None => None::<Node>,
            },
            "all"@,
        ),
{
    match p {
        Some(j) => match &entries[j].1 {
            Node::Str(s) => Declared::Keyword(s.clone()),
            Node::List(_) => Declared::List(texts_at(entries, p)),
            _ => Declared::Keyword(owned("all")),
        },
        None => Declared::Keyword(owned("all")),
    }
}

// ---------------------------------------------------------------------------
// Modes and architectures

/// Why a `modes` or `architectures` declaration is refused.
#[derive(Debug)]
pub enum ListError {
    /// A keyword other than `all`.
    NotAList(String),
    /// A token that names nothing the harness knows.
    Unknown(String),
    /// An empty list.
    Empty,
}

pub enum ListProblem {
    NotAList(Seq<char>),
    Unknown(Seq<char>),
    Empty,
}

impl ListError {
    pub open spec fn problem(self) -> ListProblem {
        match self {
            ListError::NotAList(k) => ListProblem::NotAList(k@),
            ListError::Unknown(t) => ListProblem::Unknown(t@),
            ListError::Empty => ListProblem::Empty,
        }
    }
}

/// The mode a trimmed token names.
pub open spec fn mode_named(s: Seq<char>) -> Option<Mode> {
    if s == Mode::Baseline.name() {
        Some(Mode::Baseline)
    } else if s == Mode::Native.name() {
        Some(Mode::Native)
    } else {
        None
    }
}

/// The modes a list names, each once, in the order first named; the first
/// token that names no mode, if any.
pub open spec fn modes_listed(tokens: Seq<Seq<char>>) -> Result<Seq<Mode>, Seq<char>>
    decreases tokens.len(),
{
    if tokens.len() == 0 {
        Ok(Seq::empty())
    } else {
        match modes_listed(tokens.drop_last()) {
            Err(t) => Err(t),
            Ok(ms) => match mode_named(trim(tokens.last())) {
                None => Err(tokens.last()),
                Some(m) => Ok(
                    if ms.contains(m) {
                        ms
                    } else {
                        ms.push(m)
                    },
                ),
            },
        }
    }
}

/// `all`, in any case, is every mode; a list names its modes; anything else is
/// refused. Deduplicated, not rejected: `[baseline, baseline]` says the same true
/// thing twice.
pub open spec fn modes_declared(d: DeclaredView) -> Result<Seq<Mode>, ListProblem> {
    match d {
        DeclaredView::Keyword(k) => if eq_ignore_ascii_case(k, "all"@) {
            Ok(seq![Mode::Baseline, Mode::Native])
        } else {
            Err(ListProblem::NotAList(k))
        },
        DeclaredView::List(tokens) => match modes_listed(tokens) {
            Err(t) => Err(ListProblem::Unknown(t)),
            Ok(ms) => if ms.len() == 0 {
                Err(ListProblem::Empty)
            } else {
                Ok(ms)
            },
        },
    }
}

/// The modes a manifest declares.
pub fn fp_modes(declared: &Declared) -> (r: Result<Vec<Mode>, ListError>)
    ensures
        match r {
            Ok(v) => modes_declared(declared@) == Ok::<Seq<Mode>, ListProblem>(v@),
            Err(e) => modes_declared(declared@) == Err::<Seq<Mode>, ListProblem>(e.problem()),
        },
{
    match declared {
        Declared::Keyword(keyword) => {
            if eq_ignore_ascii_case_exec(keyword.as_str(), "all") {
                let mut all = Vec::new();
                all.push(Mode::Baseline);
                all.push(Mode::Native);
                assert(all@ =~= seq![Mode::Baseline, Mode::Native]);
                Ok(all)
            } else {
                Err(ListError::NotAList(keyword.clone()))
            }
        },
        Declared::List(tokens) => {
            let mut parsed: Vec<Mode> = Vec::new();
            let mut i: usize = 0;
            while i < tokens.len()
                invariant
                    *declared == Declared::List(*tokens),
                    i <= tokens@.len(),
                    modes_listed(views(tokens@).take(i as int)) == Ok::<Seq<Mode>, Seq<char>>(
                        parsed@,
                    ),
                decreases tokens.len() - i,
            {
                let ghost t = views(tokens@).take(i + 1);
                assert(t.drop_last() =~= views(tokens@).take(i as int));
                assert(t.last() == tokens@[i as int]@);
                let token = trimmed(tokens[i].as_str());
                match Mode::parse(token.as_str()) {
                    None => {
                        proof {
                            crate::mode::lemma_mode_round_trip(Mode::Baseline, Mode::Baseline);
                            assert(Mode::Baseline.name() != token@);
                            assert(Mode::Native.name() != token@);
                            lemma_modes_listed_prefix(views(tokens@), i + 1);
                        }
                        return Err(ListError::Unknown(tokens[i].clone()));
                    },
                    Some(mode) => {
                        proof {
                            assert(mode.name() == token@);
                            lemma_mode_named(mode);
                        }
                        if !has_mode(&parsed, mode) {
                            parsed.push(mode);
                        }
                    },
                }
                i += 1;
            }
            assert(views(tokens@).take(i as int) =~= views(tokens@));
            if parsed.len() == 0 {
                return Err(ListError::Empty);
            }
            Ok(parsed)
        },
    }
}

proof fn lemma_mode_named(m: Mode)
    ensures
        mode_named(m.name()) == Some(m),
{
    reveal_strlit("baseline");
    reveal_strlit("native");
    crate::mode::lemma_mode_round_trip(m, Mode::Baseline);
    crate::mode::lemma_mode_round_trip(m, Mode::Native);
}

proof fn lemma_modes_listed_prefix(tokens: Seq<Seq<char>>, m: int)
    requires
        0 <= m <= tokens.len(),
        modes_listed(tokens.take(m)) is Err,
    ensures
        modes_listed(tokens) == modes_listed(tokens.take(m)),
    decreases tokens.len() - m,
{
    if m < tokens.len() {
        assert(tokens.take(m + 1).drop_last() =~= tokens.take(m));
        lemma_modes_listed_prefix(tokens, m + 1);
    } else {
        assert(tokens.take(m) =~= tokens);
    }
}

/// Whether `v` holds mode `m`.
pub fn has_mode(v: &Vec<Mode>, m: Mode) -> (r: bool)
    ensures
        r == v@.contains(m),
{
    let mut i: usize = 0;
    while i < v.len()
        invariant
            i <= v@.len(),
            forall|j: int| 0 <= j < i ==> v@[j] != m,
        decreases v.len() - i,
    {
        if v[i] == m {
            return true;
        }
        i += 1;
    }
    false
}

/// The architecture a trimmed token names.
pub open spec fn architecture_named(s: Seq<char>) -> Option<Architecture> {
    if s == Architecture::X86_64.name() {
        Some(Architecture::X86_64)
    } else if s == Architecture::Aarch64.name() {
        Some(Architecture::Aarch64)
    } else {
        None
    }
}

pub open spec fn architectures_listed(tokens: Seq<Seq<char>>) -> Result<Seq<Architecture>, Seq<char>>
    decreases tokens.len(),
{
    if tokens.len() == 0 {
        Ok(Seq::empty())
    } else {
        match architectures_listed(tokens.drop_last()) {
            Err(t) => Err(t),
            Ok(xs) => match architecture_named(trim(tokens.last())) {
                None => Err(tokens.last()),
                Some(a) => Ok(
                    if xs.contains(a) {
                        xs
                    } else {
                        xs.push(a)
                    },
                ),
            },
        }
    }
}

/// `all`, in any case, is both architectures the harness knows — never
/// "whatever this host is"; a list names its architectures; anything else is
/// refused.
pub open spec fn architectures_declared(d: DeclaredView) -> Result<Seq<Architecture>, ListProblem> {
    match d {
        DeclaredView::Keyword(k) => if eq_ignore_ascii_case(k, "all"@) {
            Ok(seq![Architecture::X86_64, Architecture::Aarch64])
        } else {
            Err(ListProblem::NotAList(k))
        },
        DeclaredView::List(tokens) => match architectures_listed(tokens) {
            Err(t) => Err(ListProblem::Unknown(t)),
            Ok(xs) => if xs.len() == 0 {
                Err(ListProblem::Empty)
            } else {
                Ok(xs)
            },
        },
    }
}

fn has_architecture(v: &Vec<Architecture>, a: Architecture) -> (r: bool)
    ensures
        r == v@.contains(a),
{
    let mut i: usize = 0;
    while i < v.len()
        invariant
            i <= v@.len(),
            forall|j: int| 0 <= j < i ==> v@[j] != a,
        decreases v.len() - i,
    {
        if v[i] == a {
            return true;
        }
        i += 1;
    }
    false
}

proof fn lemma_architecture_named(a: Architecture)
    ensures
        architecture_named(a.name()) == Some(a),
{
    crate::cli::lemma_architecture_names_distinct(a, Architecture::X86_64);
    crate::cli::lemma_architecture_names_distinct(a, Architecture::Aarch64);
}

proof fn lemma_architectures_listed_prefix(tokens: Seq<Seq<char>>, m: int)
    requires
        0 <= m <= tokens.len(),
        architectures_listed(tokens.take(m)) is Err,
    ensures
        architectures_listed(tokens) == architectures_listed(tokens.take(m)),
    decreases tokens.len() - m,
{
    if m < tokens.len() {
        assert(tokens.take(m + 1).drop_last() =~= tokens.take(m));
        lemma_architectures_listed_prefix(tokens, m + 1);
    } else {
        assert(tokens.take(m) =~= tokens);
    }
}

/// The architectures a manifest declares.
pub fn architectures(declared: &Declared) -> (r: Result<Vec<Architecture>, ListError>)
    ensures
        match r {
            Ok(v) => architectures_declared(declared@) == Ok::<Seq<Architecture>, ListProblem>(v@),
            Err(e) => architectures_declared(declared@) == Err::<Seq<Architecture>, ListProblem>(
                e.problem(),
            ),
        },
{
    match declared {
        Declared::Keyword(keyword) => {
            if eq_ignore_ascii_case_exec(keyword.as_str(), "all") {
                let mut all = Vec::new();
                all.push(Architecture::X86_64);
                all.push(Architecture::Aarch64);
                assert(all@ =~= seq![Architecture::X86_64, Architecture::Aarch64]);
                Ok(all)
            } else {
                Err(ListError::NotAList(keyword.clone()))
            }
        },
        Declared::List(tokens) => {
            let mut parsed: Vec<Architecture> = Vec::new();
            let mut i: usize = 0;
            while i < tokens.len()
                invariant
                    *declared == Declared::List(*tokens),
                    i <= tokens@.len(),
                    architectures_listed(views(tokens@).take(i as int)) == Ok::<
                        Seq<Architecture>,
                        Seq<char>,
                    >(parsed@),
                decreases tokens.len() - i,
            {
                let ghost t = views(tokens@).take(i + 1);
                assert(t.drop_last() =~= views(tokens@).take(i as int));
                assert(t.last() == tokens@[i as int]@);
                let token = trimmed(tokens[i].as_str());
                match Architecture::parse(token.as_str()) {
                    None => {
                        proof {
                            assert(Architecture::X86_64.name() != token@);
                            assert(Architecture::Aarch64.name() != token@);
                            lemma_architectures_listed_prefix(views(tokens@), i + 1);
                        }
                        return Err(ListError::Unknown(tokens[i].clone()));
                    },
                    Some(a) => {
                        proof {
                            assert(a.name() == token@);
                            lemma_architecture_named(a);
                        }
                        if !has_architecture(&parsed, a) {
                            parsed.push(a);
                        }
                    },
                }
                i += 1;
            }
            assert(views(tokens@).take(i as int) =~= views(tokens@));
            if parsed.len() == 0 {
                return Err(ListError::Empty);
            }
            Ok(parsed)
        },
    }
}

impl ListError {
    pub open spec fn message_text(self, what: Seq<char>, example: Seq<char>, known: Seq<char>) -> Seq<char> {
        match self {
            ListError::NotAList(k) => "`"@ + k@ + "` is not a"@ + what
                + " list; write `all` or a list such as "@ + example,
            ListError::Unknown(t) => "`"@ + t@ + "` is not a known"@ + what + "; expected one of "@
                + known,
            ListError::Empty => "no"@ + what + " declared; write `all` or a list such as "@ + example,
        }
    }

    fn message(&self, what: &str, example: &str, known: &str) -> (r: String)
        ensures
            r@ == self.message_text(what@, example@, known@),
    {
        match self {
            ListError::NotAList(k) => {
                let mut m = owned("`");
                push_str(&mut m, k.as_str());
                push_str(&mut m, "` is not a");
                push_str(&mut m, what);
                push_str(&mut m, " list; write `all` or a list such as ");
                push_str(&mut m, example);
                m
            },
            ListError::Unknown(t) => {
                let mut m = owned("`");
                push_str(&mut m, t.as_str());
                push_str(&mut m, "` is not a known");
                push_str(&mut m, what);
                push_str(&mut m, "; expected one of ");
                push_str(&mut m, known);
                m
            },
            ListError::Empty => {
                let mut m = owned("no");
                push_str(&mut m, what);
                push_str(&mut m, " declared; write `all` or a list such as ");
                push_str(&mut m, example);
                m
            },
        }
    }
}

// ---------------------------------------------------------------------------
// Implementations

/// One benchmark implementation, as its manifest declares it.
#[derive(Debug)]
pub struct Implementation {
    pub workload: String,
    pub language: String,
    pub compiler: Option<String>,
    pub interpreter: Option<String>,
    pub description: String,
    pub comments: Option<String>,
    /// The directory the manifest sits in: where the Dockerfile is, and nothing
    /// more.
    pub context: String,
    /// The kernel's source file, as the manifest declared it.
    pub source: String,
    /// Its size, read once, at discovery.
    pub source_bytes: u64,
    /// The modes this implementation declares it can be built in.
    pub fp_modes: Vec<Mode>,
    /// The architectures this implementation can be built on.
    pub architectures: Vec<Architecture>,
}

/// Why discovery refuses the tree.
#[derive(Debug)]
pub enum DiscoveryError {
    /// A manifest that does not read.
    Manifest { path: String, error: ManifestError },
    /// A backend that neither compiles nor interprets.
    NothingCompilesOrInterprets { path: String },
    Modes { path: String, error: ListError },
    Architectures { path: String, error: ListError },
    /// A manifest with no Dockerfile beside it.
    NoDockerfile { path: String, dir: String },
    /// A `source:` that is not a file.
    NoSource { path: String, source: String, dir: String },
    /// One identity, declared twice.
    Duplicate { first: String, second: String, workload: String, slug: String },
    /// A workload nobody declares.
    UnknownWorkload { workload: String, root: String, declared: String },
    /// One workload id, declared twice.
    DuplicateWorkload { first: String, second: String, id: String },
}

impl DiscoveryError {
    pub open spec fn message_text(self) -> Seq<char> {
        match self {
            DiscoveryError::Manifest { path, error } => "parsing "@ + path@ + ": "@
                + error.message_text(),
            DiscoveryError::NothingCompilesOrInterprets { path } => path@
                + ": declare a `compiler`, an `interpreter`, or both — something has to turn the source into instructions"@,
            DiscoveryError::Modes { path, error } => "reading `modes` from "@ + path@ + ": "@
                + error.message_text(" mode"@, "[baseline]"@, "baseline, native"@),
            DiscoveryError::Architectures { path, error } => "reading `architectures` from "@ + path@
                + ": "@ + error.message_text(" architecture"@, "[x86_64]"@, "x86_64, aarch64"@),
            DiscoveryError::NoDockerfile { path, dir } => path@ + " declares an implementation, but "@
                + dir@ + " holds no Dockerfile to build it from"@,
            DiscoveryError::NoSource { path, source, dir } => path@ + " declares `source: "@ + source@
                + "`, which is not a file in "@ + dir@
                + ". It names the one kernel this implementation compiles, and its size is a published metric — so it has to exist and it has to be a file."@,
            DiscoveryError::Duplicate { first, second, workload, slug } => first@ + " and "@ + second@
                + " declare the same implementation ("@ + workload@ + " / "@ + slug@
                + "): an implementation is its (language, compiler, interpreter), and there is exactly one of it"@,
            DiscoveryError::UnknownWorkload { workload, root, declared } => "no workload `"@
                + workload@ + "` under "@ + root@ + "; there is "@ + declared@,
            DiscoveryError::DuplicateWorkload { first, second, id } => first@ + " and "@ + second@
                + " both declare the workload `"@ + id@
                + "`: a workload is declared once, and its id is what names the campaign that measures it"@,
        }
    }

    /// The message a person reads.
    pub fn message(&self) -> (r: String)
        ensures
            r@ == self.message_text(),
    {
        match self {
            DiscoveryError::Manifest { path, error } => {
                let mut m = owned("parsing ");
                push_str(&mut m, path.as_str());
                push_str(&mut m, ": ");
                push_str(&mut m, error.message().as_str());
                m
            },
            DiscoveryError::NothingCompilesOrInterprets { path } => {
                let mut m = path.clone();
                push_str(
                    &mut m,
                    ": declare a `compiler`, an `interpreter`, or both — something has to turn the source into instructions",
                );
                m
            },
            DiscoveryError::Modes { path, error } => {
                let mut m = owned("reading `modes` from ");
                push_str(&mut m, path.as_str());
                push_str(&mut m, ": ");
                push_str(&mut m, error.message(" mode", "[baseline]", "baseline, native").as_str());
                m
            },
            DiscoveryError::Architectures { path, error } => {
                let mut m = owned("reading `architectures` from ");
                push_str(&mut m, path.as_str());
                push_str(&mut m, ": ");
                push_str(&mut m, error.message(" architecture", "[x86_64]", "x86_64, aarch64").as_str());
                m
            },
            DiscoveryError::NoDockerfile { path, dir } => {
                let mut m = path.clone();
                push_str(&mut m, " declares an implementation, but ");
                push_str(&mut m, dir.as_str());
                push_str(&mut m, " holds no Dockerfile to build it from");
                m
            },
            DiscoveryError::NoSource { path, source, dir } => {
                let mut m = path.clone();
                push_str(&mut m, " declares `source: ");
                push_str(&mut m, source.as_str());
                push_str(&mut m, "`, which is not a file in ");
                push_str(&mut m, dir.as_str());
                push_str(
                    &mut m,
                    ". It names the one kernel this implementation compiles, and its size is a published metric — so it has to exist and it has to be a file.",
                );
                m
            },
            DiscoveryError::Duplicate { first, second, workload, slug } => {
                let mut m = first.clone();
                push_str(&mut m, " and ");
                push_str(&mut m, second.as_str());
                push_str(&mut m, " declare the same implementation (");
                push_str(&mut m, workload.as_str());
                push_str(&mut m, " / ");
                push_str(&mut m, slug.as_str());
                push_str(
                    &mut m,
                    "): an implementation is its (language, compiler, interpreter), and there is exactly one of it",
                );
                m
            },
            DiscoveryError::UnknownWorkload { workload, root, declared } => {
                let mut m = owned("no workload `");
                push_str(&mut m, workload.as_str());
                push_str(&mut m, "` under ");
                push_str(&mut m, root.as_str());
                push_str(&mut m, "; there is ");
                push_str(&mut m, declared.as_str());
                m
            },
            DiscoveryError::DuplicateWorkload { first, second, id } => {
                let mut m = first.clone();
                push_str(&mut m, " and ");
                push_str(&mut m, second.as_str());
                push_str(&mut m, " both declare the workload `");
                push_str(&mut m, id.as_str());
                push_str(
                    &mut m,
                    "`: a workload is declared once, and its id is what names the campaign that measures it",
                );
                m
            },
        }
    }
}

/// What stops a manifest from declaring an implementation, checked in order.
pub enum LoadProblem {
    NothingCompilesOrInterprets,
    Modes(ListProblem),
    Architectures(ListProblem),
    NoDockerfile,
    NoSource,
}

/// The first reason a manifest that reads does not declare an implementation.
pub open spec fn load_problem(m: Manifest, has_dockerfile: bool, source_bytes: Option<u64>) -> Option<
    LoadProblem,
> {
    if m.compiler is None && m.interpreter is None {
        Some(LoadProblem::NothingCompilesOrInterprets)
    } else if modes_declared(m.modes@) is Err {
        Some(LoadProblem::Modes(modes_declared(m.modes@)->Err_0))
    } else if architectures_declared(m.architectures@) is Err {
        Some(LoadProblem::Architectures(architectures_declared(m.architectures@)->Err_0))
    } else if !has_dockerfile {
        Some(LoadProblem::NoDockerfile)
    } else if source_bytes is None {
        Some(LoadProblem::NoSource)
    } else {
        None
    }
}

impl DiscoveryError {
    /// What kind of load problem this error reports, when it reports one.
    pub open spec fn load_kind(self) -> Option<LoadProblem> {
        match self {
            DiscoveryError::NothingCompilesOrInterprets { .. } => Some(
                LoadProblem::NothingCompilesOrInterprets,
            ),
            DiscoveryError::Modes { error, .. } => Some(LoadProblem::Modes(error.problem())),
            DiscoveryError::Architectures { error, .. } => Some(
                LoadProblem::Architectures(error.problem()),
            ),
            DiscoveryError::NoDockerfile { .. } => Some(LoadProblem::NoDockerfile),
            DiscoveryError::NoSource { .. } => Some(LoadProblem::NoSource),
            _ => None,
        }
    }
}

impl DiscoveryError {
    /// A loading error names the manifest it is about, and, where a file is
    /// missing, the directory it was looked for in and what the manifest called it.
    pub open spec fn names_its_files(self, path: Seq<char>, dir: Seq<char>, source: Seq<char>) -> bool {
        match self {
            DiscoveryError::NothingCompilesOrInterprets { path: p } => p@ == path,
            DiscoveryError::Modes { path: p, .. } => p@ == path,
            DiscoveryError::Architectures { path: p, .. } => p@ == path,
            DiscoveryError::NoDockerfile { path: p, dir: d } => p@ == path && d@ == dir,
            DiscoveryError::NoSource { path: p, source: s, dir: d } => p@ == path && s@ == source
                && d@ == dir,
            _ => false,
        }
    }
}

impl Implementation {
    /// This implementation's identity, as one token.
    pub open spec fn slug_spec(self) -> Seq<char> {
        slug_text(self.language@, opt_text(self.compiler), opt_text(self.interpreter))
    }

    /// This implementation's identity, as one token: `c-gcc`,
    /// `python-cython-cpython`.
    pub fn slug(&self) -> (r: String)
        ensures
            r@ == self.slug_spec(),
    {
        crate::sample::backend_slug(
            self.language.as_str(),
            crate::sample::as_opt_str(&self.compiler),
            crate::sample::as_opt_str(&self.interpreter),
        )
    }

    /// `langbench/{workload}-{slug}:{mode}`.
    pub open spec fn image_spec(self, mode: Mode) -> Seq<char> {
        "langbench/"@ + self.workload@ + seq!['-'] + self.slug_spec() + seq![':'] + mode.name()
    }

    /// One image per (implementation, mode). The mode is a build arg, so the
    /// Dockerfile is shared; only the tag differs.
    pub fn image(&self, mode: Mode) -> (r: String)
        ensures
            r@ == self.image_spec(mode),
    {
        let mut r = owned("langbench/");
        push_str(&mut r, self.workload.as_str());
        crate::text::push_char(&mut r, '-');
        push_str(&mut r, self.slug().as_str());
        crate::text::push_char(&mut r, ':');
        push_str(&mut r, mode.as_str());
        r
    }

    /// One tag per (implementation, mode): two implementations of one workload,
    /// whose slugs hold no `:`, are given the same image tag exactly when they
    /// have the same slug and are built under the same mode.
    pub proof fn lemma_one_image_per_unit(self, other: Implementation, mode: Mode, other_mode: Mode)
        requires
            self.workload@ == other.workload@,
            !self.slug_spec().contains(':'),
            !other.slug_spec().contains(':'),
        ensures
            self.image_spec(mode) == other.image_spec(other_mode) <==> (self.slug_spec()
                == other.slug_spec() && mode == other_mode),
    {
        crate::mode::lemma_mode_round_trip(mode, other_mode);
        let prefix = "langbench/"@ + self.workload@ + seq!['-'];
        let a = self.slug_spec();
        let b = other.slug_spec();
        let x = a + seq![':'] + mode.name();
        let y = b + seq![':'] + other_mode.name();
        assert(self.image_spec(mode) =~= prefix + x);
        assert(other.image_spec(other_mode) =~= prefix + y);
        if self.image_spec(mode) == other.image_spec(other_mode) {
            assert(x =~= (prefix + x).subrange(prefix.len() as int, (prefix + x).len() as int));
            assert(y =~= (prefix + y).subrange(prefix.len() as int, (prefix + y).len() as int));
            assert(x == y);
            if a.len() < b.len() {
                assert(x[a.len() as int] == ':');
                assert(y[a.len() as int] == b[a.len() as int]);
                assert(b.contains(b[a.len() as int]));
            } else if b.len() < a.len() {
                assert(y[b.len() as int] == ':');
                assert(x[b.len() as int] == a[b.len() as int]);
                assert(a.contains(a[b.len() as int]));
            }
            assert(a.len() == b.len());
            assert(a =~= x.subrange(0, a.len() as int));
            assert(b =~= y.subrange(0, b.len() as int));
            assert(mode.name() =~= x.subrange(a.len() as int + 1, x.len() as int));
            assert(other_mode.name() =~= y.subrange(b.len() as int + 1, y.len() as int));
        }
    }

    /// Can this implementation be built on this machine at all? An unknown host
    /// supports nothing: `all` means both of the two the harness knows, not
    /// whatever this host happens to be.
    pub fn supports(&self, host: Option<Architecture>) -> (r: bool)
        ensures
            r == (host matches Some(h) && self.architectures@.contains(h)),
    {
        match host {
            Some(h) => has_architecture(&self.architectures, h),
            None => false,
        }
    }

    /// The requested modes this implementation actually distinguishes, in the
    /// order they were requested.
    pub fn selected_modes(&self, requested: &Vec<Mode>) -> (r: Vec<Mode>)
        ensures
            r@ == selected(requested@, self.fp_modes@),
    {
        let mut r: Vec<Mode> = Vec::new();
        let mut i: usize = 0;
        while i < requested.len()
            invariant
                i <= requested@.len(),
                r@ == selected(requested@.take(i as int), self.fp_modes@),
            decreases requested.len() - i,
        {
            let ghost t = requested@.take(i + 1);
            assert(t.drop_last() =~= requested@.take(i as int));
            assert(t.last() == requested@[i as int]);
            if has_mode(&self.fp_modes, requested[i]) {
                r.push(requested[i]);
            }
            i += 1;
        }
        assert(requested@.take(i as int) =~= requested@);
        r
    }
}

/// The modes of `requested` that `declared` holds, in the order requested.
pub open spec fn selected(requested: Seq<Mode>, declared: Seq<Mode>) -> Seq<Mode>
    decreases requested.len(),
{
    if requested.len() == 0 {
        Seq::empty()
    } else if declared.contains(requested.last()) {
        selected(requested.drop_last(), declared).push(requested.last())
    } else {
        selected(requested.drop_last(), declared)
    }
}

impl Implementation {
    /// Two implementations that say the same thing.
    pub open spec fn same_as(self, other: Implementation) -> bool {
        &&& self.workload@ == other.workload@
        &&& self.language@ == other.language@
        &&& opt_text(self.compiler) == opt_text(other.compiler)
        &&& opt_text(self.interpreter) == opt_text(other.interpreter)
        &&& self.description@ == other.description@
        &&& opt_text(self.comments) == opt_text(other.comments)
        &&& self.context@ == other.context@
        &&& self.source@ == other.source@
        &&& self.source_bytes == other.source_bytes
        &&& self.fp_modes@ == other.fp_modes@
        &&& self.architectures@ == other.architectures@
    }

    /// A copy of this implementation.
    pub fn duplicate(&self) -> (r: Implementation)
        ensures
            r.same_as(*self),
    {
        let mut fp_modes: Vec<Mode> = Vec::new();
        let mut i: usize = 0;
        while i < self.fp_modes.len()
            invariant
                i <= self.fp_modes@.len(),
                fp_modes@ == self.fp_modes@.take(i as int),
            decreases self.fp_modes.len() - i,
        {
            fp_modes.push(self.fp_modes[i]);
            i += 1;
            assert(fp_modes@ =~= self.fp_modes@.take(i as int));
        }
        assert(self.fp_modes@.take(i as int) =~= self.fp_modes@);
        let mut architectures: Vec<Architecture> = Vec::new();
        let mut j: usize = 0;
        while j < self.architectures.len()
            invariant
                j <= self.architectures@.len(),
                architectures@ == self.architectures@.take(j as int),
            decreases self.architectures.len() - j,
        {
            architectures.push(self.architectures[j]);
            j += 1;
            assert(architectures@ =~= self.architectures@.take(j as int));
        }
        assert(self.architectures@.take(j as int) =~= self.architectures@);
        Implementation {
            workload: self.workload.clone(),
            language: self.language.clone(),
            compiler: crate::analysis::clone_opt(&self.compiler),
            interpreter: crate::analysis::clone_opt(&self.interpreter),
            description: self.description.clone(),
            comments: crate::analysis::clone_opt(&self.comments),
            context: self.context.clone(),
            source: self.source.clone(),
            source_bytes: self.source_bytes,
            fp_modes,
            architectures,
        }
    }

    /// Read a manifest the walk has already found, with what the disk says
    /// beside it: whether a Dockerfile is there, and the size of the declared
    /// source when it is a file.
    ///
    /// Every failure here is loud, and the first one in this order is the one
    /// reported: a backend that neither compiles nor interprets, a mode or an
    /// architecture list that does not read, no Dockerfile, no source.
    pub fn load(
        manifest: Manifest,
        path: &str,
        workload: &str,
        context: &str,
        source: &str,
        source_bytes: Option<u64>,
        has_dockerfile: bool,
    ) -> (r: Result<Implementation, DiscoveryError>)
        ensures
            match r {
                Err(e) => e.load_kind() is Some && load_problem(
                    manifest,
                    has_dockerfile,
                    source_bytes,
                ) == e.load_kind() && e.names_its_files(path@, context@, manifest.source@),
                Ok(i) => {
                    &&& load_problem(manifest, has_dockerfile, source_bytes) is None
                    &&& i.workload@ == workload@
                    &&& i.language@ == manifest.language@
                    &&& opt_text(i.compiler) == opt_text(manifest.compiler)
                    &&& opt_text(i.interpreter) == opt_text(manifest.interpreter)
                    &&& i.description@ == manifest.description@
                    &&& opt_text(i.comments) == opt_text(manifest.comments)
                    &&& i.context@ == context@
                    &&& i.source@ == source@
                    &&& source_bytes == Some(i.source_bytes)
                    &&& modes_declared(manifest.modes@) == Ok::<Seq<Mode>, ListProblem>(
                        i.fp_modes@,
                    )
                    &&& architectures_declared(manifest.architectures@) == Ok::<
                        Seq<Architecture>,
                        ListProblem,
                    >(i.architectures@)
                },
            },
    {
        if manifest.compiler.is_none() && manifest.interpreter.is_none() {
            return Err(DiscoveryError::NothingCompilesOrInterprets { path: owned(path) });
        }
        let fp_modes = match fp_modes(&manifest.modes) {
            Ok(m) => m,
            Err(error) => {
                return Err(DiscoveryError::Modes { path: owned(path), error });
            },
        };
        let architectures = match architectures(&manifest.architectures) {
            Ok(a) => a,
            Err(error) => {
                return Err(DiscoveryError::Architectures { path: owned(path), error });
            },
        };
        if !has_dockerfile {
            return Err(DiscoveryError::NoDockerfile { path: owned(path), dir: owned(context) });
        }
        let bytes = match source_bytes {
            Some(b) => b,
            None => {
                return Err(
                    DiscoveryError::NoSource {
                        path: owned(path),
                        source: manifest.source,
                        dir: owned(context),
                    },
                );
            },
        };
        Ok(
            Implementation {
                workload: owned(workload),
                language: manifest.language,
                compiler: manifest.compiler,
                interpreter: manifest.interpreter,
                description: manifest.description,
                comments: manifest.comments,
                context: owned(context),
                source: owned(source),
                source_bytes: bytes,
                fp_modes,
                architectures,
            },
        )
    }
}

// ---------------------------------------------------------------------------
// One identity, declared once

/// What an implementation is: its workload, and its backend.
pub open spec fn identity(i: Implementation) -> (Seq<char>, Seq<char>) {
    (i.workload@, i.slug_spec())
}

/// The first index before `n` holding identity `id`.
pub open spec fn earlier_with(found: Seq<Implementation>, n: int, id: (Seq<char>, Seq<char>)) -> Option<int>
    decreases n,
{
    if n <= 0 {
        None
    } else {
        match earlier_with(found, n - 1, id) {
            Some(i) => Some(i),
            None => if identity(found[n - 1]) == id {
                Some(n - 1)
            } else {
                None
            },
        }
    }
}

/// The first implementation whose identity an earlier one already has, and that
/// earlier one.
pub open spec fn first_duplicate(found: Seq<Implementation>, n: int) -> Option<(int, int)>
    decreases n,
{
    if n <= 0 {
        None
    } else {
        match first_duplicate(found, n - 1) {
            Some(p) => Some(p),
            None => match earlier_with(found, n - 1, identity(found[n - 1])) {
                Some(i) => Some((i, n - 1)),
                None => None,
            },
        }
    }
}

/// The same identity declared twice is one implementation described in two
/// places: refused, naming both.
pub fn reject_duplicates(found: &Vec<Implementation>) -> (r: Result<(), DiscoveryError>)
    ensures
        r is Ok <==> forall|i: int, j: int|
            0 <= i < j < found@.len() ==> !collide(#[trigger] found@[i], #[trigger] found@[j]),
        match first_duplicate(found@, found@.len() as int) {
            None => r is Ok,
            Some((i, j)) => r matches Err(DiscoveryError::Duplicate { first, second, workload, slug })
                && first@ == found@[i].context@ && second@ == found@[j].context@ && workload@
                == found@[j].workload@ && slug@ == found@[j].slug_spec(),
        },
{
    proof {
        lemma_a_duplicate_is_a_collision(found@);
    }
    let mut slugs: Vec<String> = Vec::new();
    let mut j: usize = 0;
    while j < found.len()
        invariant
            j <= found@.len(),
            slugs@.len() == j,
            forall|q: int| 0 <= q < j ==> #[trigger] slugs@[q]@ == found@[q].slug_spec(),
            first_duplicate(found@, j as int) is None,
        decreases found.len() - j,
    {
        let slug = found[j].slug();
        let mut i: usize = 0;
        while i < j
            invariant
                i <= j < found@.len(),
                slugs@.len() == j,
                slug@ == found@[j as int].slug_spec(),
                forall|q: int| 0 <= q < j ==> #[trigger] slugs@[q]@ == found@[q].slug_spec(),
                earlier_with(found@, i as int, identity(found@[j as int])) is None,
                first_duplicate(found@, j as int) is None,
            decreases j - i,
        {
            if crate::text::str_eq(found[i].workload.as_str(), found[j].workload.as_str())
                && crate::text::str_eq(slugs[i].as_str(), slug.as_str()) {
                assert(identity(found@[i as int]) == identity(found@[j as int]));
                assert(earlier_with(found@, i + 1, identity(found@[j as int])) == Some(i as int));
                proof {
                    lemma_earlier_with_stable(found@, i + 1, j as int, identity(found@[j as int]));
                    assert(first_duplicate(found@, j + 1) == Some((i as int, j as int)));
                    lemma_first_duplicate_stable(found@, j + 1, found@.len() as int);
                }
                return Err(
                    DiscoveryError::Duplicate {
                        first: found[i].context.clone(),
                        second: found[j].context.clone(),
                        workload: found[j].workload.clone(),
                        slug,
                    },
                );
            }
            i += 1;
        }
        slugs.push(slug);
        j += 1;
    }
    Ok(())
}

proof fn lemma_earlier_with_stable(found: Seq<Implementation>, m: int, n: int, id: (Seq<char>, Seq<char>))
    requires
        0 <= m <= n,
        earlier_with(found, m, id) is Some,
    ensures
        earlier_with(found, n, id) == earlier_with(found, m, id),
    decreases n - m,
{
    if m < n {
        lemma_earlier_with_stable(found, m, n - 1, id);
    }
}

proof fn lemma_first_duplicate_stable(found: Seq<Implementation>, m: int, n: int)
    requires
        0 <= m <= n,
        first_duplicate(found, m) is Some,
    ensures
        first_duplicate(found, n) == first_duplicate(found, m),
    decreases n - m,
{
    if m < n {
        lemma_first_duplicate_stable(found, m, n - 1);
    }
}

/// Two implementations are one when they implement the same workload with the
/// same backend: the same workload, and the same backend slug.
pub open spec fn collide(a: Implementation, b: Implementation) -> bool {
    a.workload@ == b.workload@ && a.slug_spec() == b.slug_spec()
}

proof fn lemma_earlier_with_finds(found: Seq<Implementation>, n: int, id: (Seq<char>, Seq<char>))
    requires
        0 <= n <= found.len(),
    ensures
        match earlier_with(found, n, id) {
            Some(i) => 0 <= i < n && identity(found[i]) == id,
            None => forall|i: int| 0 <= i < n ==> identity(#[trigger] found[i]) != id,
        },
    decreases n,
{
    if n > 0 {
        lemma_earlier_with_finds(found, n - 1, id);
    }
}

proof fn lemma_no_duplicate_below(found: Seq<Implementation>, n: int)
    requires
        0 <= n <= found.len(),
    ensures
        first_duplicate(found, n) is None <==> forall|i: int, j: int|
            0 <= i < j < n ==> identity(#[trigger] found[i]) != identity(#[trigger] found[j]),
    decreases n,
{
    if n > 0 {
        lemma_no_duplicate_below(found, n - 1);
        lemma_earlier_with_finds(found, n - 1, identity(found[n - 1]));
        if first_duplicate(found, n - 1) is None {
            match earlier_with(found, n - 1, identity(found[n - 1])) {
                Some(i) => {
                    assert(identity(found[i]) == identity(found[n - 1]));
                },
                None => {
                    assert forall|i: int, j: int| 0 <= i < j < n implies identity(
                        #[trigger] found[i],
                    ) != identity(#[trigger] found[j]) by {
                        if j == n - 1 {
                            assert(identity(found[i]) != identity(found[n - 1]));
                        }
                    }
                },
            }
        } else {
            let (i, j) = choose|i: int, j: int|
                0 <= i < j < n - 1 && identity(#[trigger] found[i]) == identity(#[trigger] found[j]);
        }
    }
}

/// The only duplicate is a collision: a list has no duplicate exactly when no
/// two of its implementations share both their workload and their backend.
/// The same backend may implement two workloads, and two backends may
/// implement one.
pub proof fn lemma_a_duplicate_is_a_collision(found: Seq<Implementation>)
    ensures
        first_duplicate(found, found.len() as int) is None <==> forall|i: int, j: int|
            0 <= i < j < found.len() ==> !collide(#[trigger] found[i], #[trigger] found[j]),
        first_duplicate(found, found.len() as int) matches Some((i, j)) ==> 0 <= i < j
            < found.len() && collide(found[i], found[j]),
{
    lemma_no_duplicate_below(found, found.len() as int);
    if let Some((i, j)) = first_duplicate(found, found.len() as int) {
        lemma_duplicate_pair(found, found.len() as int);
    }
}

proof fn lemma_duplicate_pair(found: Seq<Implementation>, n: int)
    requires
        0 <= n <= found.len(),
    ensures
        first_duplicate(found, n) matches Some((i, j)) ==> 0 <= i < j < n && identity(found[i])
            == identity(found[j]),
    decreases n,
{
    if n > 0 {
        lemma_duplicate_pair(found, n - 1);
        lemma_earlier_with_finds(found, n - 1, identity(found[n - 1]));
    }
}

// ---------------------------------------------------------------------------
// A stable schedule

/// `a` (at `i`) sorts before `b` (at `j`): by text, ties in their original order.
pub open spec fn text_before(a: Seq<char>, i: int, b: Seq<char>, j: int) -> bool {
    crate::text::text_lt(a, b) || (a == b && i < j)
}

/// `order` lists every index of `keys` once, sorted by key, ties in their
/// original order.
pub open spec fn sorted_by_text(order: Seq<int>, keys: Seq<Seq<char>>) -> bool {
    &&& order.len() == keys.len()
    &&& forall|x: int| 0 <= x < order.len() ==> 0 <= #[trigger] order[x] < keys.len()
    &&& forall|x: int, y: int|
        0 <= x < y < order.len() ==> text_before(keys[order[x]], order[x], keys[order[y]], order[y])
}

proof fn lemma_text_before_order(a: Seq<char>, i: int, b: Seq<char>, j: int, c: Seq<char>, k: int)
    ensures
        i != j ==> (text_before(a, i, b, j) || text_before(b, j, a, i)),
        text_before(a, i, b, j) && text_before(b, j, c, k) ==> text_before(a, i, c, k),
{
    crate::text::lemma_text_lt_order(a, b, c);
    crate::text::lemma_text_lt_order(b, a, c);
    crate::text::lemma_text_lt_order(a, c, b);
}

fn before_text(keys: &Vec<String>, i: usize, j: usize) -> (r: bool)
    requires
        i < keys@.len(),
        j < keys@.len(),
    ensures
        r == text_before(keys@[i as int]@, i as int, keys@[j as int]@, j as int),
{
    crate::text::str_lt(keys[i].as_str(), keys[j].as_str()) || (crate::text::str_eq(
        keys[i].as_str(),
        keys[j].as_str(),
    ) && i < j)
}

/// A stable sort of the indices of `keys`, by key.
pub fn text_order(keys: &Vec<String>) -> (r: Vec<usize>)
    ensures
        sorted_by_text(crate::analysis::index_view(r@), views(keys@)),
{
    let ghost kv = views(keys@);
    let mut order: Vec<usize> = Vec::new();
    let mut i: usize = 0;
    while i < keys.len()
        invariant
            i <= keys@.len(),
            kv == views(keys@),
            order@.len() == i,
            forall|x: int| 0 <= x < order@.len() ==> #[trigger] order@[x] < i,
            forall|x: int, y: int|
                0 <= x < y < order@.len() ==> text_before(
                    kv[order@[x] as int],
                    order@[x] as int,
                    kv[order@[y] as int],
                    order@[y] as int,
                ),
        decreases keys.len() - i,
    {
        let mut p: usize = 0;
        while p < order.len() && !before_text(keys, i, order[p])
            invariant
                p <= order@.len(),
                order@.len() == i,
                i < keys@.len(),
                kv == views(keys@),
                forall|x: int| 0 <= x < order@.len() ==> #[trigger] order@[x] < i,
                forall|x: int|
                    0 <= x < p ==> !text_before(
                        kv[i as int],
                        i as int,
                        kv[order@[x] as int],
                        order@[x] as int,
                    ),
            decreases order@.len() - p,
        {
            p += 1;
        }
        let ghost old_order = order@;
        order.insert(p, i);
        proof {
            assert forall|x: int| 0 <= x < order@.len() implies #[trigger] order@[x] < i + 1 by {
                if x < p {
                    assert(order@[x] == old_order[x]);
                } else if x > p {
                    assert(order@[x] == old_order[x - 1]);
                }
            }
            assert forall|x: int, y: int| 0 <= x < y < order@.len() implies text_before(
                kv[order@[x] as int],
                order@[x] as int,
                kv[order@[y] as int],
                order@[y] as int,
            ) by {
                let ox = order@[x] as int;
                let oy = order@[y] as int;
                if x < p && y < p {
                    assert(order@[x] == old_order[x] && order@[y] == old_order[y]);
                } else if x > p && y > p {
                    assert(order@[x] == old_order[x - 1] && order@[y] == old_order[y - 1]);
                } else if x < p && y > p {
                    assert(order@[x] == old_order[x] && order@[y] == old_order[y - 1]);
                } else if x < p && y == p {
                    assert(order@[x] == old_order[x]);
                    lemma_text_before_order(kv[ox], ox, kv[i as int], i as int, kv[ox], ox);
                } else {
                    assert(x == p && y > p);
                    assert(order@[y] == old_order[y - 1]);
                    if y - 1 != p {
                        assert(order@[p + 1] == old_order[p as int]);
                        let op = old_order[p as int] as int;
                        lemma_text_before_order(kv[i as int], i as int, kv[op], op, kv[oy], oy);
                    }
                }
            }
        }
        i += 1;
    }
    proof {
        let v = crate::analysis::index_view(order@);
        assert forall|x: int| 0 <= x < v.len() implies 0 <= #[trigger] v[x] < kv.len() by {
            assert(v[x] == order@[x] as int);
        }
        assert forall|x: int, y: int| 0 <= x < y < v.len() implies text_before(
            kv[v[x]],
            v[x],
            kv[v[y]],
            v[y],
        ) by {
            assert(v[x] == order@[x] as int);
            assert(v[y] == order@[y] as int);
        }
    }
    order
}

/// The identities of a list of implementations.
pub open spec fn slugs_of(found: Seq<Implementation>) -> Seq<Seq<char>> {
    found.map_values(|i: Implementation| i.slug_spec())
}

/// Every implementation of one workload, checked for duplicates, in a stable
/// order: by identity, never by where the files sit or the order the
/// workload lists them in.
pub fn discover(found: Vec<Implementation>) -> (r: Result<Vec<Implementation>, DiscoveryError>)
    ensures
        r is Ok <==> forall|i: int, j: int|
            0 <= i < j < found@.len() ==> !collide(#[trigger] found@[i], #[trigger] found@[j]),
        first_duplicate(found@, found@.len() as int) is Some <==> r is Err,
        r matches Err(e) ==> e is Duplicate,
        r matches Ok(v) ==> v@.len() == found@.len() && exists|order: Seq<int>|
            sorted_by_text(order, slugs_of(found@)) && forall|x: int|
                0 <= x < v@.len() ==> (#[trigger] v@[x]).same_as(found@[order[x]]),
{
    match reject_duplicates(&found) {
        Err(e) => {
            return Err(e);
        },
        Ok(()) => {},
    }
    let mut slugs: Vec<String> = Vec::new();
    let mut k: usize = 0;
    while k < found.len()
        invariant
            k <= found@.len(),
            slugs@.len() == k,
            forall|q: int| 0 <= q < k ==> #[trigger] slugs@[q]@ == found@[q].slug_spec(),
        decreases found.len() - k,
    {
        slugs.push(found[k].slug());
        k += 1;
    }
    assert(views(slugs@) =~= slugs_of(found@));
    let order = text_order(&slugs);
    let ghost ov = crate::analysis::index_view(order@);
    let mut sorted: Vec<Implementation> = Vec::new();
    let mut x: usize = 0;
    while x < order.len()
        invariant
            x <= order@.len(),
            ov == crate::analysis::index_view(order@),
            sorted_by_text(ov, slugs_of(found@)),
            found@.len() == slugs@.len(),
            sorted@.len() == x,
            forall|y: int| 0 <= y < x ==> (#[trigger] sorted@[y]).same_as(found@[ov[y]]),
        decreases order.len() - x,
    {
        assert(ov[x as int] == order@[x as int] as int);
        sorted.push(found[order[x]].duplicate());
        x += 1;
    }
    Ok(sorted)
}

// ---------------------------------------------------------------------------
// Workloads

/// A workload, and the directory whose `workload.yaml` declares it.
#[derive(Debug)]
pub struct Root {
    pub workload: crate::workload::Workload,
    /// The directory the `workload.yaml` sits in. It identifies nothing: the
    /// id comes out of the file.
    pub dir: String,
}

impl Root {
    pub fn duplicate(&self) -> (r: Root)
        ensures
            r.workload.same_as(self.workload),
            r.dir@ == self.dir@,
    {
        Root { workload: self.workload.duplicate(), dir: self.dir.clone() }
    }
}

/// The workload ids of a list of roots.
pub open spec fn ids_of(roots: Seq<Root>) -> Seq<Seq<char>> {
    roots.map_values(|r: Root| r.workload.id@)
}

/// The first root, before `n`, whose id is `id`.
pub open spec fn first_with_id_before(roots: Seq<Root>, n: int, id: Seq<char>) -> Option<int>
    decreases n,
{
    if n <= 0 {
        None
    } else {
        match first_with_id_before(roots, n - 1, id) {
            Some(i) => Some(i),
            None => if roots[n - 1].workload.id@ == id {
                Some(n - 1)
            } else {
                None
            },
        }
    }
}

/// The first workload whose id an earlier one already has, and that earlier one.
pub open spec fn first_repeated_id(roots: Seq<Root>, n: int) -> Option<(int, int)>
    decreases n,
{
    if n <= 0 {
        None
    } else {
        match first_repeated_id(roots, n - 1) {
            Some(p) => Some(p),
            None => match first_with_id_before(roots, n - 1, roots[n - 1].workload.id@) {
                Some(i) => Some((i, n - 1)),
                None => None,
            },
        }
    }
}

proof fn lemma_first_with_id_stable(roots: Seq<Root>, m: int, n: int, id: Seq<char>)
    requires
        0 <= m <= n,
        first_with_id_before(roots, m, id) is Some,
    ensures
        first_with_id_before(roots, n, id) == first_with_id_before(roots, m, id),
    decreases n - m,
{
    if m < n {
        lemma_first_with_id_stable(roots, m, n - 1, id);
    }
}

proof fn lemma_first_repeated_stable(roots: Seq<Root>, m: int, n: int)
    requires
        0 <= m <= n,
        first_repeated_id(roots, m) is Some,
    ensures
        first_repeated_id(roots, n) == first_repeated_id(roots, m),
    decreases n - m,
{
    if m < n {
        lemma_first_repeated_stable(roots, m, n - 1);
    }
}

/// Every workload found on disk, in the order found, checked and sorted.
///
/// Two workloads with the same id are one workload declared twice — the
/// campaigns would overwrite each other's samples — so that is refused, naming
/// both. The rest comes out sorted by id.
pub fn workloads(found: Vec<Root>) -> (r: Result<Vec<Root>, DiscoveryError>)
    ensures
        match first_repeated_id(found@, found@.len() as int) {
            Some((i, j)) => r matches Err(DiscoveryError::DuplicateWorkload { first, second, id })
                && first@ == found@[i].dir@ && second@ == found@[j].dir@ && id@
                == found@[j].workload.id@,
            None => r matches Ok(v) && v@.len() == found@.len() && exists|order: Seq<int>|
                sorted_by_text(order, ids_of(found@)) && forall|x: int|
                    0 <= x < v@.len() ==> (#[trigger] v@[x]).workload.same_as(
                        found@[order[x]].workload,
                    ) && v@[x].dir@ == found@[order[x]].dir@,
        },
{
    let mut j: usize = 0;
    while j < found.len()
        invariant
            j <= found@.len(),
            first_repeated_id(found@, j as int) is None,
        decreases found.len() - j,
    {
        let mut i: usize = 0;
        while i < j
            invariant
                i <= j < found@.len(),
                first_with_id_before(found@, i as int, found@[j as int].workload.id@) is None,
                first_repeated_id(found@, j as int) is None,
            decreases j - i,
        {
            if crate::text::str_eq(found[i].workload.id.as_str(), found[j].workload.id.as_str()) {
                proof {
                    lemma_first_with_id_stable(
                        found@,
                        i + 1,
                        j as int,
                        found@[j as int].workload.id@,
                    );
                    assert(first_repeated_id(found@, j + 1) == Some((i as int, j as int)));
                    lemma_first_repeated_stable(found@, j + 1, found@.len() as int);
                }
                return Err(
                    DiscoveryError::DuplicateWorkload {
                        first: found[i].dir.clone(),
                        second: found[j].dir.clone(),
                        id: found[j].workload.id.clone(),
                    },
                );
            }
            i += 1;
        }
        j += 1;
    }
    let mut ids: Vec<String> = Vec::new();
    let mut k: usize = 0;
    while k < found.len()
        invariant
            k <= found@.len(),
            ids@.len() == k,
            forall|q: int| 0 <= q < k ==> #[trigger] ids@[q]@ == found@[q].workload.id@,
        decreases found.len() - k,
    {
        ids.push(found[k].workload.id.clone());
        k += 1;
    }
    assert(views(ids@) =~= ids_of(found@));
    let order = text_order(&ids);
    let ghost ov = crate::analysis::index_view(order@);
    let mut sorted: Vec<Root> = Vec::new();
    let mut x: usize = 0;
    while x < order.len()
        invariant
            x <= order@.len(),
            ov == crate::analysis::index_view(order@),
            sorted_by_text(ov, ids_of(found@)),
            found@.len() == ids@.len(),
            sorted@.len() == x,
            forall|y: int|
                0 <= y < x ==> (#[trigger] sorted@[y]).workload.same_as(found@[ov[y]].workload)
                    && sorted@[y].dir@ == found@[ov[y]].dir@,
        decreases order.len() - x,
    {
        assert(ov[x as int] == order@[x as int] as int);
        sorted.push(found[order[x]].duplicate());
        x += 1;
    }
    Ok(sorted)
}

/// The workloads on disk, for an error message: `none`, or their ids.
pub open spec fn declared_text(roots: Seq<Root>) -> Seq<char> {
    if roots.len() == 0 {
        "none"@
    } else {
        crate::text::join(ids_of(roots), ", "@)
    }
}

/// The workloads on disk, for an error message that tells the reader what they
/// could have asked for.
pub fn declared(roots: &Vec<Root>) -> (r: String)
    ensures
        r@ == declared_text(roots@),
{
    if roots.len() == 0 {
        return owned("none");
    }
    let mut ids: Vec<String> = Vec::new();
    let mut k: usize = 0;
    while k < roots.len()
        invariant
            k <= roots@.len(),
            ids@.len() == k,
            forall|q: int| 0 <= q < k ==> #[trigger] ids@[q]@ == roots@[q].workload.id@,
        decreases roots.len() - k,
    {
        ids.push(roots[k].workload.id.clone());
        k += 1;
    }
    assert(views(ids@) =~= ids_of(roots@));
    crate::text::join_strings(&ids, ", ")
}

/// The root of the workload a campaign asked for: the first one with that id.
/// A name nobody declares is a typo, and the error says what was declared.
pub fn find_workload(roots: &Vec<Root>, workload: &str, root_dir: &str) -> (r: Result<usize, DiscoveryError>)
    ensures
        match r {
            Ok(i) => i < roots@.len() && roots@[i as int].workload.id@ == workload@ && forall|k: int|
                0 <= k < i ==> roots@[k].workload.id@ != workload@,
            Err(e) => (forall|k: int| 0 <= k < roots@.len() ==> roots@[k].workload.id@ != workload@)
                && (e matches DiscoveryError::UnknownWorkload { workload: w, root, declared: d } && w@
                == workload@ && root@ == root_dir@ && d@ == declared_text(roots@)),
        },
{
    let mut i: usize = 0;
    while i < roots.len()
        invariant
            i <= roots@.len(),
            forall|k: int| 0 <= k < i ==> roots@[k].workload.id@ != workload@,
        decreases roots.len() - i,
    {
        if crate::text::str_eq(roots[i].workload.id.as_str(), workload) {
            return Ok(i);
        }
        i += 1;
    }
    Err(
        DiscoveryError::UnknownWorkload {
            workload: owned(workload),
            root: owned(root_dir),
            declared: declared(roots),
        },
    )
}

/// The manifests on disk that no workload claims, in the order the walk found
/// them. A campaign reads the lists the workloads declare, so it would never
/// build one of these, never measure it, and never miss it.
pub open spec fn unclaimed_of(on_disk: Seq<Seq<char>>, claimed: Seq<Seq<char>>) -> Seq<Seq<char>> {
    on_disk.filter(|path: Seq<char>| !claimed.contains(path))
}

/// `unclaimed_of`, over the paths as the walk and the workloads spelled them.
pub fn unclaimed(on_disk: &Vec<String>, claimed: &Vec<String>) -> (r: Vec<String>)
    ensures
        views(r@) == unclaimed_of(views(on_disk@), views(claimed@)),
{
    let ghost d = views(on_disk@);
    let ghost c = views(claimed@);
    let mut r: Vec<String> = Vec::new();
    let mut i: usize = 0;
    while i < on_disk.len()
        invariant
            i <= on_disk@.len(),
            d == views(on_disk@),
            c == views(claimed@),
            views(r@) == unclaimed_of(d.take(i as int), c),
        decreases on_disk.len() - i,
    {
        proof {
            reveal(Seq::filter);
            assert(d.take(i + 1).drop_last() =~= d.take(i as int));
            crate::text::lemma_views_push(r@, on_disk@[i as int]);
        }
        if !crate::text::has_string(claimed, on_disk[i].as_str()) {
            r.push(on_disk[i].clone());
        }
        i += 1;
    }
    assert(d.take(i as int) =~= d);
    r
}

/// What checking the whole tree found.
#[derive(Debug)]
pub struct Rejected {
    /// How many manifests are rejected.
    pub failed: usize,
    /// The identity two manifests share, when that is what failed.
    pub duplicate: Option<DiscoveryError>,
}

impl Rejected {
    pub fn message(&self) -> (r: String)
        ensures
            r@ == crate::text::decimal(self.failed as nat) + " manifest(s) rejected"@,
    {
        let mut m = crate::text::usize_to_string(self.failed);
        push_str(&mut m, " manifest(s) rejected");
        m
    }
}

/// The verdict on a whole tree: `broken` manifests did not load or are claimed
/// by no workload, and `implementations` are the ones that loaded. A duplicate
/// identity is only looked for once every manifest loads: a collision with a
/// malformed manifest is not the error to report.
pub fn validate(implementations: &Vec<Implementation>, broken: usize) -> (r: Result<usize, Rejected>)
    ensures
        broken == 0 && (forall|i: int, j: int|
            0 <= i < j < implementations@.len() ==> !collide(
                #[trigger] implementations@[i],
                #[trigger] implementations@[j],
            )) ==> r == Ok::<usize, Rejected>(implementations@.len() as usize),
        broken > 0 ==> (r matches Err(rejected) && rejected.failed == broken
            && rejected.duplicate is None),
        broken == 0 && first_duplicate(implementations@, implementations@.len() as int) is Some
            ==> (r matches Err(rejected) && rejected.failed == 1 && (rejected.duplicate matches Some(
            e) && e is Duplicate)),
        broken == 0 && first_duplicate(implementations@, implementations@.len() as int) is None
            ==> r == Ok::<usize, Rejected>(implementations@.len() as usize),
{
    if broken > 0 {
        return Err(Rejected { failed: broken, duplicate: None });
    }
    match reject_duplicates(implementations) {
        Err(e) => Err(Rejected { failed: 1, duplicate: Some(e) }),
        Ok(()) => Ok(implementations.len()),
    }
}

/// The implementations among what every claimed manifest loaded as, in order.
pub open spec fn loaded_of(loaded: Seq<Result<Implementation, String>>) -> Seq<Implementation>
    decreases loaded.len(),
{
    if loaded.len() == 0 {
        Seq::empty()
    } else {
        match loaded.last() {
            Ok(i) => loaded_of(loaded.drop_last()).push(i),
            Err(_) => loaded_of(loaded.drop_last()),
        }
    }
}

/// How many claimed manifests did not load.
pub open spec fn failed_of(loaded: Seq<Result<Implementation, String>>) -> nat
    decreases loaded.len(),
{
    if loaded.len() == 0 {
        0
    } else {
        failed_of(loaded.drop_last()) + if loaded.last() is Err {
            1nat
        } else {
            0nat
        }
    }
}

/// The verdict on a whole tree, from what every claimed manifest loaded as and
/// the manifests on disk that no workload claims: each manifest that did not
/// load and each stray is rejected; once there is none, a duplicate identity
/// is; else every implementation is counted.
pub fn check_tree(loaded: Vec<Result<Implementation, String>>, strays: &Vec<String>) -> (r: Result<
    usize,
    Rejected,
>)
    requires
        loaded@.len() + strays@.len() <= usize::MAX,
    ensures
        ({
            let implementations = loaded_of(loaded@);
            let broken = failed_of(loaded@) + strays@.len();
            &&& broken > 0 ==> (r matches Err(rejected) && rejected.failed == broken
                && rejected.duplicate is None)
            &&& broken == 0 && first_duplicate(implementations, implementations.len() as int)
                is Some ==> (r matches Err(rejected) && rejected.failed == 1 && (
            rejected.duplicate matches Some(e) && e is Duplicate))
            &&& broken == 0 && first_duplicate(implementations, implementations.len() as int)
                is None ==> r == Ok::<usize, Rejected>(implementations.len() as usize)
        }),
{
    let ghost orig = loaded@;
    let n = loaded.len();
    let mut loaded = loaded;
    let mut rev: Vec<Result<Implementation, String>> = Vec::new();
    while loaded.len() > 0
        invariant
            n == orig.len(),
            loaded@.len() + rev@.len() == n,
            loaded@ == orig.take(loaded@.len() as int),
            forall|j: int| 0 <= j < rev@.len() ==> #[trigger] rev@[j] == orig[n - 1 - j],
        decreases loaded@.len(),
    {
        let l = loaded.pop().unwrap();
        assert(loaded@ =~= orig.take(loaded@.len() as int));
        rev.push(l);
    }
    let mut implementations: Vec<Implementation> = Vec::new();
    let mut failed: usize = 0;
    let mut i: usize = 0;
    while rev.len() > 0
        invariant
            n == orig.len(),
            n + strays@.len() <= usize::MAX,
            i + rev@.len() == n,
            forall|j: int| 0 <= j < rev@.len() ==> #[trigger] rev@[j] == orig[n - 1 - j],
            implementations@ == loaded_of(orig.take(i as int)),
            failed == failed_of(orig.take(i as int)),
            failed <= i,
        decreases rev@.len(),
    {
        let ghost t = orig.take(i + 1);
        assert(t.drop_last() =~= orig.take(i as int));
        let l = rev.pop().unwrap();
        assert(l == orig[i as int]);
        match l {
            Ok(implementation) => implementations.push(implementation),
            Err(_) => failed = failed + 1,
        }
        i += 1;
    }
    assert(orig.take(i as int) =~= orig);
    validate(&implementations, failed + strays.len())
}

} // verus!
