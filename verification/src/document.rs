//! A manifest as a document: the tree a YAML file parses to, and the rules that
//! turn one of its mappings into a struct.
//!
//! Both manifests are read the same strict way. Every key must name a field —
//! a misspelled key fails, it is never quietly ignored, because a manifest
//! that is half-read still produces numbers, just wrong ones about what
//! produced them. A key given twice fails. A value of the wrong shape fails. A
//! required field that is absent fails. The first problem, in document order,
//! is the one reported; a missing field only once every key was read.
use vstd::prelude::*;

use crate::text::{owned, push_str, str_eq};

verus! {

/// A parsed YAML document.
#[derive(Debug)]
pub enum Node {
    Null,
    Bool(bool),
    /// Any integer the document wrote.
    Int(i128),
    Str(String),
    List(Vec<Node>),
    /// A mapping, its keys as written, in document order.
    Mapping(Vec<(String, Node)>),
    /// Anything else — a float, a tagged value — as the document spells it.
    Other(String),
}

/// What a field's value has to look like.
#[derive(Clone, Copy, Debug, PartialEq, Eq, Structural)]
pub enum Shape {
    /// A string.
    Text,
    /// A string, or nothing: `compiler:` with no value.
    OptionalText,
    /// A keyword, or a list of strings: `modes: all`, `modes: [baseline]`.
    TextOrTextList,
    /// A list of strings.
    TextList,
    /// A param's value: an integer that fits an `i64`, a boolean, or a string.
    Scalar,
    /// A checksum: nothing, a 64-bit unsigned integer, or a string of digits.
    Checksum,
    /// A list of params, each a `name` and a `value`.
    Params,
}

/// Every element of a list is a string.
pub open spec fn is_text_list(n: Node) -> bool {
    n matches Node::List(v) && forall|i: int| 0 <= i < v@.len() ==> (#[trigger] v@[i]) is Str
}

/// Whether `n` has shape `s`, for every shape but `Params`.
pub open spec fn fits_flat(s: Shape, n: Node) -> bool {
    match s {
        Shape::Text => n is Str,
        Shape::OptionalText => n is Null || n is Str,
        Shape::TextOrTextList => n is Str || is_text_list(n),
        Shape::TextList => is_text_list(n),
        Shape::Scalar => (n matches Node::Int(v) && i64::MIN <= v <= i64::MAX) || n is Bool
            || n is Str,
        Shape::Checksum => n is Null || (n matches Node::Int(v) && 0 <= v <= u64::MAX) || (
        n matches Node::Str(t) && crate::text::parse_u64(crate::text::trim(t@)) is Some),
        Shape::Params => false,
    }
}

/// The fields of a param.
pub open spec fn param_fields() -> Seq<(Seq<char>, Shape, bool)> {
    seq![("name"@, Shape::Text, true), ("value"@, Shape::Scalar, true)]
}

pub open spec fn param_spellings() -> Seq<(Seq<char>, int)> {
    seq![("name"@, 0), ("value"@, 1)]
}

/// What went wrong with a mapping, first in document order.
pub enum Problem {
    /// A key that names no field.
    Unknown(Seq<char>),
    /// A field given a second time.
    Duplicate(Seq<char>),
    /// A field whose value has the wrong shape.
    Invalid(Seq<char>),
    /// A required field that is absent.
    Missing(Seq<char>),
    /// The document is not a mapping at all.
    NotAMapping,
}

/// The field `key` spells: the first spelling that matches.
pub open spec fn spelled(spellings: Seq<(Seq<char>, int)>, key: Seq<char>) -> Option<int>
    decreases spellings.len(),
{
    if spellings.len() == 0 {
        None
    } else if spellings[0].0 == key {
        Some(spellings[0].1)
    } else {
        spelled(spellings.drop_first(), key)
    }
}

pub open spec fn entry_views(v: Seq<(String, Node)>) -> Seq<(Seq<char>, Node)> {
    v.map_values(|e: (String, Node)| (e.0@, e.1))
}

/// Some entry of `entries` spells field `f`.
pub open spec fn present(entries: Seq<(Seq<char>, Node)>, spellings: Seq<(Seq<char>, int)>, f: int) -> bool {
    exists|j: int| 0 <= j < entries.len() && spelled(spellings, (#[trigger] entries[j]).0) == Some(f)
}

/// What is wrong with entry `e`, read after `before`.
pub open spec fn entry_problem(
    e: (Seq<char>, Node),
    before: Seq<(Seq<char>, Node)>,
    fields: Seq<(Seq<char>, Shape, bool)>,
    spellings: Seq<(Seq<char>, int)>,
    deep: bool,
) -> Option<Problem>
    decreases (if deep { 1int } else { 0int }), 0int, 1int,
{
    match spelled(spellings, e.0) {
        None => Some(Problem::Unknown(e.0)),
        Some(f) => if !(0 <= f < fields.len()) {
            Some(Problem::Unknown(e.0))
        } else if present(before, spellings, f) {
            Some(Problem::Duplicate(fields[f].0))
        } else if !fits(fields[f].1, e.1, deep) {
            Some(Problem::Invalid(fields[f].0))
        } else {
            None
        },
    }
}

/// Whether `n` has shape `s`. A list of params is read, when `deep`, with the
/// same rules as a manifest.
pub open spec fn fits(s: Shape, n: Node, deep: bool) -> bool
    decreases (if deep { 1int } else { 0int }), 0int, 0int,
{
    if s == Shape::Params {
        deep && match n {
            Node::List(v) => forall|i: int|
                0 <= i < v@.len() ==> param_ok(#[trigger] v@[i]),
            _ => false,
        }
    } else {
        fits_flat(s, n)
    }
}

/// A param: a mapping with a `name` and a `value`, and nothing else.
pub open spec fn param_ok(n: Node) -> bool
    decreases 0int, 1int, 0int,
{
    match n {
        Node::Mapping(entries) => read_problem(entry_views(entries@), param_fields(), param_spellings(), false) is None,
        _ => false,
    }
}

/// The first problem among `entries`, in document order.
pub open spec fn scan(
    entries: Seq<(Seq<char>, Node)>,
    fields: Seq<(Seq<char>, Shape, bool)>,
    spellings: Seq<(Seq<char>, int)>,
    deep: bool,
) -> Option<Problem>
    decreases (if deep { 1int } else { 0int }), 0int, entries.len() + 2,
{
    if entries.len() == 0 {
        None
    } else {
        match scan(entries.drop_last(), fields, spellings, deep) {
            Some(p) => Some(p),
            None => entry_problem(entries.last(), entries.drop_last(), fields, spellings, deep),
        }
    }
}

/// The first required field, from `from` on, that no entry spells.
pub open spec fn first_missing(
    entries: Seq<(Seq<char>, Node)>,
    fields: Seq<(Seq<char>, Shape, bool)>,
    spellings: Seq<(Seq<char>, int)>,
    from: int,
) -> Option<int>
    decreases fields.len() - from,
{
    if from >= fields.len() || from < 0 {
        None
    } else if fields[from].2 && !present(entries, spellings, from) {
        Some(from)
    } else {
        first_missing(entries, fields, spellings, from + 1)
    }
}

/// What is wrong with a mapping, if anything: the first bad entry, else the
/// first required field that is absent.
pub open spec fn read_problem(
    entries: Seq<(Seq<char>, Node)>,
    fields: Seq<(Seq<char>, Shape, bool)>,
    spellings: Seq<(Seq<char>, int)>,
    deep: bool,
) -> Option<Problem>
    decreases (if deep { 1int } else { 0int }), 0int, entries.len() + 3,
{
    match scan(entries, fields, spellings, deep) {
        Some(p) => Some(p),
        None => match first_missing(entries, fields, spellings, 0) {
            Some(f) => Some(Problem::Missing(fields[f].0)),
            None => None,
        },
    }
}

// ---------------------------------------------------------------------------
// Reading a mapping

/// Why a manifest cannot be read.
#[derive(Debug)]
pub enum ManifestError {
    /// The document is not a mapping.
    NotAMapping,
    /// A key that names no field: a typo must fail, never be ignored.
    UnknownField { field: String },
    /// A field given twice.
    DuplicateField { field: String },
    /// A field whose value has the wrong shape.
    InvalidValue { field: String },
    /// A required field that is absent.
    MissingField { field: String },
}

impl ManifestError {
    pub open spec fn problem(self) -> Problem {
        match self {
            ManifestError::NotAMapping => Problem::NotAMapping,
            ManifestError::UnknownField { field } => Problem::Unknown(field@),
            ManifestError::DuplicateField { field } => Problem::Duplicate(field@),
            ManifestError::InvalidValue { field } => Problem::Invalid(field@),
            ManifestError::MissingField { field } => Problem::Missing(field@),
        }
    }

    pub open spec fn message_text(self) -> Seq<char> {
        match self {
            ManifestError::NotAMapping => "expected a mapping of fields"@,
            ManifestError::UnknownField { field } => "unknown field `"@ + field@ + "`"@,
            ManifestError::DuplicateField { field } => "duplicate field `"@ + field@ + "`"@,
            ManifestError::InvalidValue { field } => "`"@ + field@
                + "` does not hold a value of the shape it takes"@,
            ManifestError::MissingField { field } => "missing field `"@ + field@ + "`"@,
        }
    }

    /// The message a person reads.
    pub fn message(&self) -> (r: String)
        ensures
            r@ == self.message_text(),
    {
        match self {
            ManifestError::NotAMapping => owned("expected a mapping of fields"),
            ManifestError::UnknownField { field } => {
                let mut m = owned("unknown field `");
                push_str(&mut m, field.as_str());
                push_str(&mut m, "`");
                m
            },
            ManifestError::DuplicateField { field } => {
                let mut m = owned("duplicate field `");
                push_str(&mut m, field.as_str());
                push_str(&mut m, "`");
                m
            },
            ManifestError::InvalidValue { field } => {
                let mut m = owned("`");
                push_str(&mut m, field.as_str());
                push_str(&mut m, "` does not hold a value of the shape it takes");
                m
            },
            ManifestError::MissingField { field } => {
                let mut m = owned("missing field `");
                push_str(&mut m, field.as_str());
                push_str(&mut m, "`");
                m
            },
        }
    }
}

pub open spec fn field_views(v: Seq<(&str, Shape, bool)>) -> Seq<(Seq<char>, Shape, bool)> {
    v.map_values(|f: (&str, Shape, bool)| (f.0@, f.1, f.2))
}

pub open spec fn spelling_views(v: Seq<(&str, usize)>) -> Seq<(Seq<char>, int)> {
    v.map_values(|p: (&str, usize)| (p.0@, p.1 as int))
}

fn spelled_exec(spellings: &Vec<(&str, usize)>, key: &str) -> (r: Option<usize>)
    ensures
        match r {
            Some(f) => spelled(spelling_views(spellings@), key@) == Some(f as int),
            None => spelled(spelling_views(spellings@), key@) is None,
        },
{
    let ghost all = spelling_views(spellings@);
    let mut i: usize = 0;
    assert(all.subrange(0, all.len() as int) =~= all);
    while i < spellings.len()
        invariant
            i <= spellings@.len(),
            all == spelling_views(spellings@),
            spelled(all, key@) == spelled(all.subrange(i as int, all.len() as int), key@),
        decreases spellings.len() - i,
    {
        let ghost rest = all.subrange(i as int, all.len() as int);
        assert(rest[0] == all[i as int]);
        if str_eq(spellings[i].0, key) {
            return Some(spellings[i].1);
        }
        assert(rest.drop_first() =~= all.subrange(i + 1, all.len() as int));
        i += 1;
    }
    None
}

fn is_text_list_exec(n: &Node) -> (r: bool)
    ensures
        r == is_text_list(*n),
{
    match n {
        Node::List(v) => {
            let mut i: usize = 0;
            while i < v.len()
                invariant
                    *n == Node::List(*v),
                    i <= v@.len(),
                    forall|j: int| 0 <= j < i ==> (#[trigger] v@[j]) is Str,
                decreases v.len() - i,
            {
                match &v[i] {
                    Node::Str(_) => {},
                    _ => {
                        assert(!((v@[i as int]) is Str));
                        return false;
                    },
                }
                i += 1;
            }
            true
        },
        _ => false,
    }
}

fn fits_exec(s: Shape, n: &Node, deep: bool) -> (r: bool)
    ensures
        r == fits(s, *n, deep),
    decreases (if deep { 1int } else { 0int }), 0int, 0int,
{
    match s {
        Shape::Text => matches!(n, Node::Str(_)),
        Shape::OptionalText => matches!(n, Node::Null | Node::Str(_)),
        Shape::TextOrTextList => matches!(n, Node::Str(_)) || is_text_list_exec(n),
        Shape::TextList => is_text_list_exec(n),
        Shape::Scalar => match n {
            Node::Int(v) => -9223372036854775808i128 <= *v && *v <= 9223372036854775807i128,
            Node::Bool(_) => true,
            Node::Str(_) => true,
            _ => false,
        },
        Shape::Checksum => match n {
            Node::Null => true,
            Node::Int(v) => 0 <= *v && *v <= 18446744073709551615i128,
            Node::Str(t) => crate::text::parse_u64_exec(crate::text::trimmed(t.as_str()).as_str()).is_some(),
            _ => false,
        },
        Shape::Params => {
            if !deep {
                return false;
            }
            match n {
                Node::List(v) => {
                    let fields = param_field_table();
                    let spellings = param_spelling_table();
                    let mut i: usize = 0;
                    while i < v.len()
                        invariant
                            deep,
                            s == Shape::Params,
                            *n == Node::List(*v),
                            i <= v@.len(),
                            field_views(fields@) == param_fields(),
                            spelling_views(spellings@) == param_spellings(),
                            forall|j: int| 0 <= j < i ==> param_ok(#[trigger] v@[j]),
                        decreases v.len() - i,
                    {
                        match &v[i] {
                            Node::Mapping(entries) => {
                                if read_fields(entries, &fields, &spellings, false).is_err() {
                                    assert(!param_ok(v@[i as int]));
                                    proof {
                                        lemma_fits_params(*n, deep);
                                    }
                                    return false;
                                }
                            },
                            _ => {
                                assert(!param_ok(v@[i as int]));
                                proof {
                                    lemma_fits_params(*n, deep);
                                }
                                return false;
                            },
                        }
                        i += 1;
                    }
                    true
                },
                _ => false,
            }
        },
    }
}

pub fn param_field_table() -> (r: Vec<(&'static str, Shape, bool)>)
    ensures
        field_views(r@) == param_fields(),
{
    let mut t = Vec::new();
    t.push(("name", Shape::Text, true));
    t.push(("value", Shape::Scalar, true));
    assert(field_views(t@) =~= param_fields());
    t
}

pub fn param_spelling_table() -> (r: Vec<(&'static str, usize)>)
    ensures
        spelling_views(r@) == param_spellings(),
{
    let mut t = Vec::new();
    t.push(("name", 0));
    t.push(("value", 1));
    assert(spelling_views(t@) =~= param_spellings());
    t
}

/// Where each field's entry is, once the mapping has been read.
pub open spec fn positions_of(
    pos: Seq<Option<usize>>,
    entries: Seq<(Seq<char>, Node)>,
    fields: Seq<(Seq<char>, Shape, bool)>,
    spellings: Seq<(Seq<char>, int)>,
) -> bool {
    &&& pos.len() == fields.len()
    &&& forall|f: int|
        0 <= f < fields.len() ==> match #[trigger] pos[f] {
            Some(j) => j < entries.len() && spelled(spellings, entries[j as int].0) == Some(f),
            None => !present(entries, spellings, f),
        }
}

/// Read a mapping's entries against a table of fields: the first problem in
/// document order, else the first missing required field, else where each
/// field's entry is.
pub fn read_fields(
    entries: &Vec<(String, Node)>,
    fields: &Vec<(&str, Shape, bool)>,
    spellings: &Vec<(&str, usize)>,
    deep: bool,
) -> (r: Result<Vec<Option<usize>>, ManifestError>)
    ensures
        match r {
            Ok(pos) => read_problem(
                entry_views(entries@),
                field_views(fields@),
                spelling_views(spellings@),
                deep,
            ) is None && positions_of(
                pos@,
                entry_views(entries@),
                field_views(fields@),
                spelling_views(spellings@),
            ),
            Err(e) => read_problem(
                entry_views(entries@),
                field_views(fields@),
                spelling_views(spellings@),
                deep,
            ) == Some(e.problem()),
        },
    decreases (if deep { 1int } else { 0int }), 0int, 3int,
{
    let ghost ev = entry_views(entries@);
    let ghost fv = field_views(fields@);
    let ghost sv = spelling_views(spellings@);
    let mut pos: Vec<Option<usize>> = Vec::new();
    let mut k: usize = 0;
    while k < fields.len()
        invariant
            k <= fields@.len(),
            pos@.len() == k,
            forall|f: int| 0 <= f < k ==> (#[trigger] pos@[f]) is None,
        decreases fields.len() - k,
    {
        pos.push(None);
        k += 1;
    }
    let mut i: usize = 0;
    while i < entries.len()
        invariant
            i <= entries@.len(),
            ev == entry_views(entries@),
            fv == field_views(fields@),
            sv == spelling_views(spellings@),
            scan(ev.take(i as int), fv, sv, deep) is None,
            positions_of(pos@, ev.take(i as int), fv, sv),
        decreases entries.len() - i,
    {
        let ghost t = ev.take(i + 1);
        assert(t.drop_last() =~= ev.take(i as int));
        assert(t.last() == ev[i as int]);
        let key = entries[i].0.as_str();
        match spelled_exec(spellings, key) {
            None => {
                proof {
                    assert(key@ == ev[i as int].0);
                    assert(entry_problem(t.last(), t.drop_last(), fv, sv, deep) == Some(
                        Problem::Unknown(key@),
                    ));
                    assert(scan(t, fv, sv, deep) == Some(Problem::Unknown(key@)));
                    lemma_scan_prefix(ev, fv, sv, deep, i + 1);
                }
                return Err(ManifestError::UnknownField { field: entries[i].0.clone() });
            },
            Some(f) => {
                if f >= fields.len() {
                    proof {
                        assert(key@ == ev[i as int].0);
                        assert(entry_problem(t.last(), t.drop_last(), fv, sv, deep) == Some(
                            Problem::Unknown(key@),
                        ));
                        assert(scan(t, fv, sv, deep) == Some(Problem::Unknown(key@)));
                        lemma_scan_prefix(ev, fv, sv, deep, i + 1);
                    }
                    return Err(ManifestError::UnknownField { field: entries[i].0.clone() });
                }
                if pos[f].is_some() {
                    proof {
                        let j = pos@[f as int]->0 as int;
                        assert(ev.take(i as int)[j] == ev[j]);
                        assert(present(ev.take(i as int), sv, f as int));
                        lemma_scan_prefix(ev, fv, sv, deep, i + 1);
                    }
                    return Err(ManifestError::DuplicateField { field: owned(fields[f].0) });
                }
                if !fits_exec(fields[f].1, &entries[i].1, deep) {
                    proof {
                        lemma_scan_prefix(ev, fv, sv, deep, i + 1);
                    }
                    return Err(ManifestError::InvalidValue { field: owned(fields[f].0) });
                }
                pos.set(f, Some(i));
                proof {
                    assert forall|g: int| 0 <= g < fv.len() implies match #[trigger] pos@[g] {
                        Some(j) => j < t.len() && spelled(sv, t[j as int].0) == Some(g),
                        None => !present(t, sv, g),
                    } by {
                        if pos@[g] is None {
                            if present(t, sv, g) {
                                let j = choose|j: int|
                                    0 <= j < t.len() && spelled(sv, (#[trigger] t[j]).0) == Some(g);
                                if j < i {
                                    assert(ev.take(i as int)[j] == t[j]);
                                }
                            }
                        }
                    }
                }
            },
        }
        i += 1;
    }
    assert(ev.take(i as int) =~= ev);
    let mut f: usize = 0;
    while f < fields.len()
        invariant
            f <= fields@.len(),
            ev == entry_views(entries@),
            fv == field_views(fields@),
            sv == spelling_views(spellings@),
            scan(ev, fv, sv, deep) is None,
            positions_of(pos@, ev, fv, sv),
            first_missing(ev, fv, sv, 0) == first_missing(ev, fv, sv, f as int),
        decreases fields.len() - f,
    {
        if fields[f].2 && pos[f].is_none() {
            return Err(ManifestError::MissingField { field: owned(fields[f].0) });
        }
        f += 1;
    }
    Ok(pos)
}

/// A problem found within a prefix of the entries is the first problem of
/// them all.
proof fn lemma_scan_prefix(
    entries: Seq<(Seq<char>, Node)>,
    fields: Seq<(Seq<char>, Shape, bool)>,
    spellings: Seq<(Seq<char>, int)>,
    deep: bool,
    m: int,
)
    requires
        0 <= m <= entries.len(),
    ensures
        scan(entries.take(m), fields, spellings, deep) is Some ==> scan(entries, fields, spellings, deep)
            == scan(entries.take(m), fields, spellings, deep),
    decreases entries.len() - m,
{
    if m < entries.len() {
        assert(entries.take(m + 1).drop_last() =~= entries.take(m));
        lemma_scan_prefix(entries, fields, spellings, deep, m + 1);
    } else {
        assert(entries.take(m) =~= entries);
    }
}

pub proof fn lemma_fits_params(n: Node, deep: bool)
    ensures
        fits(Shape::Params, n, deep) == (deep && match n {
            Node::List(v) => forall|i: int| 0 <= i < v@.len() ==> param_ok(#[trigger] v@[i]),
            _ => false,
        }),
{
}

// ---------------------------------------------------------------------------
// Field values

/// The value of field `f`: the first entry that spells it.
pub open spec fn value_of(entries: Seq<(Seq<char>, Node)>, spellings: Seq<(Seq<char>, int)>, f: int) -> Option<Node>
    decreases entries.len(),
{
    if entries.len() == 0 {
        None
    } else if spelled(spellings, entries[0].0) == Some(f) {
        Some(entries[0].1)
    } else {
        value_of(entries.drop_first(), spellings, f)
    }
}

/// A mapping with no problem has no entry with a problem.
pub proof fn lemma_scan_none(
    entries: Seq<(Seq<char>, Node)>,
    fields: Seq<(Seq<char>, Shape, bool)>,
    spellings: Seq<(Seq<char>, int)>,
    deep: bool,
)
    requires
        scan(entries, fields, spellings, deep) is None,
    ensures
        forall|j: int|
            0 <= j < entries.len() ==> entry_problem(
                #[trigger] entries[j],
                entries.take(j),
                fields,
                spellings,
                deep,
            ) is None,
    decreases entries.len(),
{
    if entries.len() > 0 {
        lemma_scan_none(entries.drop_last(), fields, spellings, deep);
        assert forall|j: int| 0 <= j < entries.len() implies entry_problem(
            #[trigger] entries[j],
            entries.take(j),
            fields,
            spellings,
            deep,
        ) is None by {
            if j < entries.len() - 1 {
                assert(entries.drop_last()[j] == entries[j]);
                assert(entries.drop_last().take(j) =~= entries.take(j));
            } else {
                assert(entries.take(j) =~= entries.drop_last());
            }
        }
    }
}

proof fn lemma_value_at(entries: Seq<(Seq<char>, Node)>, spellings: Seq<(Seq<char>, int)>, f: int, j: int)
    requires
        0 <= j < entries.len(),
        spelled(spellings, entries[j].0) == Some(f),
        forall|k: int| 0 <= k < j ==> spelled(spellings, (#[trigger] entries[k]).0) != Some(f),
    ensures
        value_of(entries, spellings, f) == Some(entries[j].1),
    decreases j,
{
    if j > 0 {
        assert forall|k: int| 0 <= k < j - 1 implies spelled(
            spellings,
            (#[trigger] entries.drop_first()[k]).0,
        ) != Some(f) by {
            assert(entries.drop_first()[k] == entries[k + 1]);
        }
        lemma_value_at(entries.drop_first(), spellings, f, j - 1);
    }
}

proof fn lemma_value_absent(entries: Seq<(Seq<char>, Node)>, spellings: Seq<(Seq<char>, int)>, f: int)
    requires
        !present(entries, spellings, f),
    ensures
        value_of(entries, spellings, f) is None,
    decreases entries.len(),
{
    if entries.len() > 0 {
        assert(spelled(spellings, entries[0].0) != Some(f));
        assert(!present(entries.drop_first(), spellings, f)) by {
            if present(entries.drop_first(), spellings, f) {
                let j = choose|j: int|
                    0 <= j < entries.drop_first().len() && spelled(
                        spellings,
                        (#[trigger] entries.drop_first()[j]).0,
                    ) == Some(f);
                assert(entries[j + 1] == entries.drop_first()[j]);
            }
        }
        lemma_value_absent(entries.drop_first(), spellings, f);
    }
}

/// Once a mapping is read without a problem, each field's position holds its
/// value.
pub proof fn lemma_positions_give_values(
    pos: Seq<Option<usize>>,
    entries: Seq<(Seq<char>, Node)>,
    fields: Seq<(Seq<char>, Shape, bool)>,
    spellings: Seq<(Seq<char>, int)>,
    deep: bool,
)
    requires
        scan(entries, fields, spellings, deep) is None,
        positions_of(pos, entries, fields, spellings),
    ensures
        forall|f: int|
            0 <= f < fields.len() ==> value_of(entries, spellings, f) == match #[trigger] pos[f] {
                Some(j) => Some(entries[j as int].1),
                None => None::<Node>,
            },
{
    lemma_scan_none(entries, fields, spellings, deep);
    assert forall|f: int| 0 <= f < fields.len() implies value_of(entries, spellings, f)
        == match #[trigger] pos[f] {
        Some(j) => Some(entries[j as int].1),
        None => None::<Node>,
    } by {
        match pos[f] {
            Some(j) => {
                let j = j as int;
                assert forall|k: int| 0 <= k < j implies spelled(
                    spellings,
                    (#[trigger] entries[k]).0,
                ) != Some(f) by {
                    if spelled(spellings, entries[k].0) == Some(f) {
                        assert(entries.take(j)[k] == entries[k]);
                        assert(present(entries.take(j), spellings, f));
                        assert(entry_problem(entries[j], entries.take(j), fields, spellings, deep)
                            is None);
                    }
                }
                lemma_value_at(entries, spellings, f, j);
            },
            None => {
                lemma_value_absent(entries, spellings, f);
            },
        }
    }
}

/// The text of a string value; empty for anything else.
pub open spec fn node_text(n: Option<Node>) -> Seq<char> {
    match n {
        Some(Node::Str(s)) => s@,
        _ => Seq::empty(),
    }
}

/// The text of an optional string value: absent or null is `None`.
pub open spec fn node_opt_text(n: Option<Node>) -> Option<Seq<char>> {
    match n {
        Some(Node::Str(s)) => Some(s@),
        _ => None,
    }
}

pub open spec fn item_text(n: Node) -> Seq<char> {
    match n {
        Node::Str(s) => s@,
        _ => Seq::empty(),
    }
}

pub open spec fn item_texts(v: Seq<Node>) -> Seq<Seq<char>> {
    v.map_values(|x: Node| item_text(x))
}

/// The strings of a list value.
pub open spec fn node_texts(n: Option<Node>) -> Seq<Seq<char>> {
    match n {
        Some(Node::List(v)) => item_texts(v@),
        _ => Seq::empty(),
    }
}

/// The string at position `p`, when there is one.
pub fn text_at(entries: &Vec<(String, Node)>, p: Option<usize>) -> (r: Option<String>)
    requires
        p matches Some(j) ==> j < entries@.len(),
    ensures
        crate::sample::opt_text(r) == node_opt_text(
            match p {
                Some(j) => Some(entries@[j as int].1),
                None => None::<Node>,
            },
        ),
{
    match p {
        Some(j) => match &entries[j].1 {
            Node::Str(s) => Some(s.clone()),
            _ => None,
        },
        None => None,
    }
}

/// The strings of the list at position `p`.
pub fn texts_at(entries: &Vec<(String, Node)>, p: Option<usize>) -> (r: Vec<String>)
    requires
        p matches Some(j) ==> j < entries@.len(),
    ensures
        crate::text::views(r@) == node_texts(
            match p {
                Some(j) => Some(entries@[j as int].1),
                None => None::<Node>,
            },
        ),
{
    let mut out: Vec<String> = Vec::new();
    match p {
        Some(j) => match &entries[j].1 {
            Node::List(v) => {
                let mut i: usize = 0;
                while i < v.len()
                    invariant
                        i <= v@.len(),
                        crate::text::views(out@) == item_texts(v@.take(i as int)),
                    decreases v.len() - i,
                {
                    let t = match &v[i] {
                        Node::Str(s) => s.clone(),
                        _ => String::new(),
                    };
                    assert(t@ == item_text(v@[i as int]));
                    let ghost before = crate::text::views(out@);
                    out.push(t);
                    assert(crate::text::views(out@) =~= before.push(item_text(v@[i as int])));
                    assert(item_texts(v@.take(i + 1)) =~= item_texts(v@.take(i as int)).push(
                        item_text(v@[i as int]),
                    ));
                    i += 1;
                }
                assert(v@.take(i as int) =~= v@);
                out
            },
            _ => out,
        },
        None => out,
    }
}

} // verus!
