//! What a workload is: the work itself, declared once, beside the
//! implementations that race to do it.
//!
//! A workload is sized by a few parameters, handed to every kernel in the order
//! the manifest declares them, and — when the work is deterministic — pinned to
//! one reference checksum.
use vstd::prelude::*;

use crate::document::{
    entry_views, field_views, item_text, lemma_fits_params, lemma_positions_give_values,
    lemma_scan_none, node_text, node_texts, positions_of, read_fields, read_problem,
    spelling_views, text_at, texts_at, value_of, ManifestError, Node, Shape,
};
use crate::text::{
    all_digits, chars_of, decimal, find_char, find_char_from, i64_to_string, join, join_strings, owned,
    parse_i64, parse_i64_exec, push_str, signed_decimal, str_eq, string_of, trim, trim_bounds, trimmed,
    views,
};

verus! {

/// The file that declares a workload.
pub const MANIFEST: &'static str = "workload.yaml";

/// What `workload.yaml` declares, and what a campaign snapshots into its header.
#[derive(Debug, PartialEq, Eq)]
pub struct Workload {
    /// What this workload is called.
    pub id: String,
    /// What the work is, in one paragraph.
    pub description: String,
    /// The directories holding this workload's implementations, each relative to
    /// the manifest.
    pub implementations: Vec<String>,
    /// How the work is sized; the order is the kernels' `argv` order.
    pub params: Vec<Param>,
    /// The value every run of this workload must produce, in every mode, for these
    /// params.
    pub checksum: Option<u64>,
}

/// One knob of a workload, and the value this campaign ran it at.
#[derive(Debug, PartialEq, Eq)]
pub struct Param {
    pub name: String,
    pub value: ParamValue,
}

/// A param's value: whatever scalar the manifest wrote.
#[derive(Debug, PartialEq, Eq)]
pub enum ParamValue {
    Integer(i64),
    Boolean(bool),
    Text(String),
}

/// The mathematical content of a [`ParamValue`].
pub enum ParamValueView {
    Integer(i64),
    Boolean(bool),
    Text(Seq<char>),
}

impl View for ParamValue {
    type V = ParamValueView;

    open spec fn view(&self) -> ParamValueView {
        match self {
            ParamValue::Integer(v) => ParamValueView::Integer(*v),
            ParamValue::Boolean(v) => ParamValueView::Boolean(*v),
            ParamValue::Text(v) => ParamValueView::Text(v@),
        }
    }
}

impl View for Param {
    type V = (Seq<char>, ParamValueView);

    open spec fn view(&self) -> (Seq<char>, ParamValueView) {
        (self.name@, self.value@)
    }
}

/// The views of a list of params.
pub open spec fn param_views(v: Seq<Param>) -> Seq<(Seq<char>, ParamValueView)> {
    v.map_values(|p: Param| p@)
}

/// `true` or `false`, as Rust prints a boolean.
pub open spec fn bool_text(b: bool) -> Seq<char> {
    if b {
        "true"@
    } else {
        "false"@
    }
}

pub fn bool_to_string(b: bool) -> (r: String)
    ensures
        r@ == bool_text(b),
{
    if b {
        owned("true")
    } else {
        owned("false")
    }
}

/// How a value prints: as it was written, never `2048.0` for `2048`.
pub open spec fn value_text(v: ParamValueView) -> Seq<char> {
    match v {
        ParamValueView::Integer(i) => signed_decimal(i as int),
        ParamValueView::Boolean(b) => bool_text(b),
        ParamValueView::Text(t) => t,
    }
}

/// What a command line's `--param name=<value>` means: an integer when it reads
/// as one, a boolean when it is `true` or `false`, text otherwise.
pub open spec fn parse_value(s: Seq<char>) -> ParamValueView {
    match parse_i64(s) {
        Some(i) => ParamValueView::Integer(i),
        None => if s == "true"@ {
            ParamValueView::Boolean(true)
        } else if s == "false"@ {
            ParamValueView::Boolean(false)
        } else {
            ParamValueView::Text(s)
        },
    }
}

impl ParamValue {
    /// The value as one `argv` token.
    pub fn to_text(&self) -> (r: String)
        ensures
            r@ == value_text(self@),
    {
        match self {
            ParamValue::Integer(v) => i64_to_string(*v),
            ParamValue::Boolean(v) => bool_to_string(*v),
            ParamValue::Text(v) => v.clone(),
        }
    }

    /// Read a value as a command line spells it: `--param grid_size=256`.
    pub fn parse(value: &str) -> (r: ParamValue)
        ensures
            r@ == parse_value(value@),
    {
        if let Some(integer) = parse_i64_exec(value) {
            return ParamValue::Integer(integer);
        }
        if str_eq(value, "true") {
            ParamValue::Boolean(true)
        } else if str_eq(value, "false") {
            ParamValue::Boolean(false)
        } else {
            ParamValue::Text(owned(value))
        }
    }

    pub fn clone_value(&self) -> (r: ParamValue)
        ensures
            r@ == self@,
    {
        match self {
            ParamValue::Integer(v) => ParamValue::Integer(*v),
            ParamValue::Boolean(v) => ParamValue::Boolean(*v),
            ParamValue::Text(v) => ParamValue::Text(v.clone()),
        }
    }

    /// Whether two values are the same scalar.
    pub fn same(&self, other: &ParamValue) -> (r: bool)
        ensures
            r == (self@ == other@),
    {
        match (self, other) {
            (ParamValue::Integer(a), ParamValue::Integer(b)) => *a == *b,
            (ParamValue::Boolean(a), ParamValue::Boolean(b)) => *a == *b,
            (ParamValue::Text(a), ParamValue::Text(b)) => str_eq(a.as_str(), b.as_str()),
            _ => false,
        }
    }
}

impl Param {
    pub fn clone_param(&self) -> (r: Param)
        ensures
            r@ == self@,
    {
        Param { name: self.name.clone(), value: self.value.clone_value() }
    }
}

/// The index of the first param called `name`.
pub open spec fn param_index(params: Seq<(Seq<char>, ParamValueView)>, name: Seq<char>) -> Option<
    int,
>
    decreases params.len(),
{
    if params.len() == 0 {
        None
    } else if params[0].0 == name {
        Some(0)
    } else {
        match param_index(params.drop_first(), name) {
            Some(i) => Some(i + 1),
            None => None,
        }
    }
}

/// The params once every override is applied in turn, or `None` when an
/// override names a param that is not declared.
pub open spec fn apply_overrides(
    params: Seq<(Seq<char>, ParamValueView)>,
    overrides: Seq<(Seq<char>, Seq<char>)>,
) -> Option<Seq<(Seq<char>, ParamValueView)>>
    decreases overrides.len(),
{
    if overrides.len() == 0 {
        Some(params)
    } else {
        match apply_overrides(params, overrides.drop_last()) {
            None => None,
            Some(ps) => match param_index(ps, overrides.last().0) {
                None => None,
                Some(i) => Some(ps.update(i, (ps[i].0, parse_value(overrides.last().1)))),
            },
        }
    }
}

/// The name of the first override that names no declared param, if any.
pub open spec fn first_unknown(
    params: Seq<(Seq<char>, ParamValueView)>,
    overrides: Seq<(Seq<char>, Seq<char>)>,
) -> Option<Seq<char>>
    decreases overrides.len(),
{
    if overrides.len() == 0 {
        None
    } else {
        match first_unknown(params, overrides.drop_last()) {
            Some(name) => Some(name),
            None => match apply_overrides(params, overrides.drop_last()) {
                Some(ps) => if param_index(ps, overrides.last().0) is None {
                    Some(overrides.last().0)
                } else {
                    None
                },
                None => None,
            },
        }
    }
}

/// Overrides that all apply name no unknown param.
proof fn lemma_applied_has_no_unknown(
    params: Seq<(Seq<char>, ParamValueView)>,
    overrides: Seq<(Seq<char>, Seq<char>)>,
)
    requires
        apply_overrides(params, overrides) is Some,
    ensures
        first_unknown(params, overrides) is None,
    decreases overrides.len(),
{
    if overrides.len() > 0 {
        lemma_applied_has_no_unknown(params, overrides.drop_last());
    }
}

/// The first unknown name of a prefix is the first unknown name of the whole.
proof fn lemma_first_unknown_extends(
    params: Seq<(Seq<char>, ParamValueView)>,
    overrides: Seq<(Seq<char>, Seq<char>)>,
    n: int,
)
    requires
        0 <= n <= overrides.len(),
        first_unknown(params, overrides.take(n)) is Some,
    ensures
        first_unknown(params, overrides) == first_unknown(params, overrides.take(n)),
    decreases overrides.len() - n,
{
    if n < overrides.len() {
        assert(overrides.take(n + 1).drop_last() =~= overrides.take(n));
        lemma_first_unknown_extends(params, overrides, n + 1);
    } else {
        assert(overrides.take(n) =~= overrides);
    }
}

/// The views of a list of `(name, value)` pairs.
pub open spec fn pair_views(v: Seq<(String, String)>) -> Seq<(Seq<char>, Seq<char>)> {
    v.map_values(|p: (String, String)| (p.0@, p.1@))
}

/// The names of the declared params, for an error message: `none`, or
/// `grid_size, max_iter`.
pub open spec fn param_names_text(params: Seq<(Seq<char>, ParamValueView)>) -> Seq<char> {
    if params.len() == 0 {
        "none"@
    } else {
        join(params.map_values(|p: (Seq<char>, ParamValueView)| p.0), ", "@)
    }
}

/// Why a workload or its overrides were refused.
#[derive(Debug)]
pub enum WorkloadError {
    /// The manifest does not read.
    Manifest(ManifestError),
    /// The manifest declares no `id`.
    MissingId,
    /// An override names a param the workload never declared.
    UnknownParam { name: String, workload: String, declared: String },
    /// A `--param` that is not `name=value`.
    MalformedParam { pair: String },
}

impl WorkloadError {
    pub open spec fn message_text(self) -> Seq<char> {
        match self {
            WorkloadError::Manifest(error) => "parsing the workload manifest: "@ + error.message_text(),
            WorkloadError::MissingId => "a workload declares an `id`: it is what names the campaign, and what `langbench workload run` is given"@,
            WorkloadError::UnknownParam { name, workload, declared } => "`"@ + name@
                + "` is not a param of the `"@ + workload@ + "` workload; it declares "@ + declared@,
            WorkloadError::MalformedParam { pair } => "`"@ + pair@
                + "` is not a param: write it as `name=value`, e.g. `grid_size=256`"@,
        }
    }

    /// The message a person reads.
    pub fn message(&self) -> (r: String)
        ensures
            r@ == self.message_text(),
    {
        match self {
            WorkloadError::Manifest(error) => {
                let mut m = owned("parsing the workload manifest: ");
                push_str(&mut m, error.message().as_str());
                m
            },
            WorkloadError::MissingId => owned(
                "a workload declares an `id`: it is what names the campaign, and what `langbench workload run` is given",
            ),
            WorkloadError::UnknownParam { name, workload, declared } => {
                let mut m = owned("`");
                push_str(&mut m, name.as_str());
                push_str(&mut m, "` is not a param of the `");
                push_str(&mut m, workload.as_str());
                push_str(&mut m, "` workload; it declares ");
                push_str(&mut m, declared.as_str());
                m
            },
            WorkloadError::MalformedParam { pair } => {
                let mut m = owned("`");
                push_str(&mut m, pair.as_str());
                push_str(&mut m, "` is not a param: write it as `name=value`, e.g. `grid_size=256`");
                m
            },
        }
    }
}

impl Workload {
    /// The workload the tests elsewhere measure: Mandelbrot at 4096 × 1000, with
    /// no declared checksum.
    pub fn fixture() -> (r: Workload)
        ensures
            r.id@ == "mandelbrot"@,
            r.params@.len() == 2,
            r.checksum is None,
    {
        let mut params = Vec::new();
        params.push(Param { name: owned("grid_size"), value: ParamValue::Integer(4096) });
        params.push(Param { name: owned("max_iter"), value: ParamValue::Integer(1000) });
        Workload {
            id: owned("mandelbrot"),
            description: owned("Escape-time Mandelbrot over a fixed grid."),
            implementations: Vec::new(),
            params,
            checksum: None,
        }
    }

    /// A manifest that parsed, held to the rule serde cannot express: it names
    /// itself.
    pub fn validate(self) -> (r: Result<Workload, WorkloadError>)
        ensures
            trim(self.id@).len() == 0 ==> r matches Err(WorkloadError::MissingId),
            trim(self.id@).len() != 0 ==> r == Ok::<Workload, WorkloadError>(self),
    {
        let id = trimmed(self.id.as_str());
        if id.as_str().is_empty() {
            Err(WorkloadError::MissingId)
        } else {
            Ok(self)
        }
    }

    /// The parameters, in declaration order, as a kernel receives them.
    pub fn argv(&self) -> (r: Vec<String>)
        ensures
            r@.len() == self.params@.len(),
            forall|i: int| 0 <= i < r@.len() ==> #[trigger] r@[i]@ == value_text(self.params@[i].value@),
    {
        let mut r: Vec<String> = Vec::new();
        let mut i: usize = 0;
        while i < self.params.len()
            invariant
                i <= self.params@.len(),
                r@.len() == i,
                forall|k: int| 0 <= k < i ==> #[trigger] r@[k]@ == value_text(self.params@[k].value@),
            decreases self.params.len() - i,
        {
            r.push(self.params[i].value.to_text());
            i += 1;
        }
        r
    }

    /// The declared param names, for an error message.
    pub fn param_names(&self) -> (r: String)
        ensures
            r@ == param_names_text(param_views(self.params@)),
    {
        if self.params.len() == 0 {
            return owned("none");
        }
        let mut names: Vec<String> = Vec::new();
        let mut i: usize = 0;
        while i < self.params.len()
            invariant
                i <= self.params@.len(),
                names@.len() == i,
                forall|k: int| 0 <= k < i ==> #[trigger] names@[k]@ == self.params@[k].name@,
            decreases self.params.len() - i,
        {
            names.push(self.params[i].name.clone());
            i += 1;
        }
        let r = join_strings(&names, ", ");
        assert(views(names@) =~= param_views(self.params@).map_values(
            |p: (Seq<char>, ParamValueView)| p.0,
        ));
        r
    }

    /// The same workload, with some params overridden from the command line.
    ///
    /// A name the workload never declared is an error. An override that actually
    /// changes a value drops the declared checksum: it is the answer to the
    /// declared work, not to this one.
    pub fn with_overrides(&self, overrides: &Vec<(String, String)>) -> (r: Result<
        Workload,
        WorkloadError,
    >)
        ensures
            apply_overrides(param_views(self.params@), pair_views(overrides@)) is None <==> r is Err,
            r matches Err(e) ==> e matches WorkloadError::UnknownParam { name, workload, declared }
                && Some(name@) == first_unknown(param_views(self.params@), pair_views(overrides@))
                && workload@ == self.id@ && declared@ == param_names_text(
                param_views(self.params@),
            ),
            r matches Ok(w) ==> {
                let ps = apply_overrides(param_views(self.params@), pair_views(overrides@)).unwrap();
                &&& param_views(w.params@) == ps
                &&& w.id@ == self.id@
                &&& w.description@ == self.description@
                &&& views(w.implementations@) == views(self.implementations@)
                &&& w.checksum == if ps == param_views(self.params@) {
                    self.checksum
                } else {
                    None
                }
            },
    {
        let mut params: Vec<Param> = Vec::new();
        let mut k: usize = 0;
        while k < self.params.len()
            invariant
                k <= self.params@.len(),
                params@.len() == k,
                forall|q: int| 0 <= q < k ==> #[trigger] params@[q]@ == self.params@[q]@,
            decreases self.params.len() - k,
        {
            params.push(self.params[k].clone_param());
            k += 1;
        }
        assert(param_views(params@) =~= param_views(self.params@));
        let mut j: usize = 0;
        while j < overrides.len()
            invariant
                j <= overrides@.len(),
                apply_overrides(param_views(self.params@), pair_views(overrides@).take(j as int))
                    == Some(param_views(params@)),
            decreases overrides.len() - j,
        {
            let name = &overrides[j].0;
            let value = &overrides[j].1;
            let ghost before = param_views(params@);
            assert(pair_views(overrides@).take(j + 1).drop_last() =~= pair_views(overrides@).take(
                j as int,
            ));
            assert(pair_views(overrides@).take(j + 1).last() == (name@, value@));
            let found = find_param(&params, name.as_str());
            if found.is_none() {
                proof {
                    let ps = param_views(self.params@);
                    let ov = pair_views(overrides@);
                    lemma_apply_overrides_none_extends(ps, ov, j + 1);
                    lemma_applied_has_no_unknown(ps, ov.take(j as int));
                    assert(ov.take(j + 1).drop_last() =~= ov.take(j as int));
                    assert(first_unknown(ps, ov.take(j + 1)) == Some(name@));
                    lemma_first_unknown_extends(ps, ov, j + 1);
                }
                return Err(
                    WorkloadError::UnknownParam {
                        name: name.clone(),
                        workload: self.id.clone(),
                        declared: self.param_names(),
                    },
                );
            }
            let i = found.unwrap();
            let parsed = ParamValue::parse(value.as_str());
            let pname = params[i].name.clone();
            params.set(i, Param { name: pname, value: parsed });
            proof {
                let ov = pair_views(overrides@).take(j + 1);
                assert(ov.drop_last() =~= pair_views(overrides@).take(j as int));
                assert(param_index(before, ov.last().0) == Some(i as int));
                assert(param_views(params@) =~= before.update(
                    i as int,
                    (before[i as int].0, parse_value(value@)),
                ));
                assert(apply_overrides(param_views(self.params@), ov) == Some(
                    before.update(i as int, (before[i as int].0, parse_value(ov.last().1))),
                ));
            }
            j += 1;
        }
        assert(pair_views(overrides@).take(j as int) =~= pair_views(overrides@));
        let unchanged = self.same_params(&params);
        let mut implementations: Vec<String> = Vec::new();
        let mut m: usize = 0;
        while m < self.implementations.len()
            invariant
                m <= self.implementations@.len(),
                implementations@.len() == m,
                forall|q: int|
                    0 <= q < m ==> #[trigger] implementations@[q]@ == self.implementations@[q]@,
            decreases self.implementations.len() - m,
        {
            implementations.push(self.implementations[m].clone());
            m += 1;
        }
        assert(views(implementations@) =~= views(self.implementations@));
        Ok(
            Workload {
                id: self.id.clone(),
                description: self.description.clone(),
                implementations,
                params,
                checksum: if unchanged {
                    self.checksum
                } else {
                    None
                },
            },
        )
    }

    fn same_params(&self, params: &Vec<Param>) -> (r: bool)
        ensures
            r == (param_views(params@) == param_views(self.params@)),
    {
        if params.len() != self.params.len() {
            proof {
                assert(param_views(params@).len() != param_views(self.params@).len());
            }
            return false;
        }
        let mut i: usize = 0;
        while i < params.len()
            invariant
                i <= params@.len(),
                params@.len() == self.params@.len(),
                forall|k: int| 0 <= k < i ==> #[trigger] params@[k]@ == self.params@[k]@,
            decreases params.len() - i,
        {
            let same_name = str_eq(params[i].name.as_str(), self.params[i].name.as_str());
            let same_value = params[i].value.same(&self.params[i].value);
            if !(same_name && same_value) {
                proof {
                    assert(param_views(params@)[i as int] != param_views(self.params@)[i as int]);
                }
                return false;
            }
            i += 1;
        }
        assert(param_views(params@) =~= param_views(self.params@));
        true
    }
}

/// The first param called `name`.
fn find_param(params: &Vec<Param>, name: &str) -> (r: Option<usize>)
    ensures
        match r {
            Some(k) => param_index(param_views(params@), name@) == Some(k as int),
            None => param_index(param_views(params@), name@) is None,
        },
        r matches Some(i) ==> i < params@.len(),
{
    let mut i: usize = 0;
    while i < params.len()
        invariant
            i <= params@.len(),
            forall|m: int| 0 <= m < i ==> #[trigger] param_views(params@)[m].0 != name@,
        decreases params.len() - i,
    {
        if str_eq(params[i].name.as_str(), name) {
            proof {
                lemma_param_index_at(param_views(params@), name@, i as int);
            }
            return Some(i);
        }
        i += 1;
    }
    proof {
        lemma_param_index_at(param_views(params@), name@, i as int);
    }
    None
}

proof fn lemma_param_index_at(ps: Seq<(Seq<char>, ParamValueView)>, name: Seq<char>, i: int)
    requires
        0 <= i <= ps.len(),
        forall|m: int| 0 <= m < i ==> #[trigger] ps[m].0 != name,
        i == ps.len() || ps[i].0 == name,
    ensures
        param_index(ps, name) == if i == ps.len() {
            None::<int>
        } else {
            Some(i)
        },
    decreases i,
{
    if i > 0 {
        assert(forall|m: int| 0 <= m < i - 1 ==> #[trigger] ps.drop_first()[m] == ps[m + 1]);
        lemma_param_index_at(ps.drop_first(), name, i - 1);
    }
}

/// Once an override fails, every longer list of overrides fails too.
proof fn lemma_apply_overrides_none_extends(
    params: Seq<(Seq<char>, ParamValueView)>,
    overrides: Seq<(Seq<char>, Seq<char>)>,
    n: int,
)
    requires
        0 <= n <= overrides.len(),
        apply_overrides(params, overrides.take(n)) is None,
    ensures
        apply_overrides(params, overrides) is None,
    decreases overrides.len() - n,
{
    if n < overrides.len() {
        assert(overrides.take(n + 1).drop_last() =~= overrides.take(n));
        lemma_apply_overrides_none_extends(params, overrides, n + 1);
    } else {
        assert(overrides.take(n) =~= overrides);
    }
}

/// The first `=` splits a `--param` pair: the name before it, trimmed and not
/// empty, and the value after it, verbatim.
pub open spec fn split_pair(s: Seq<char>) -> Option<(Seq<char>, Seq<char>)> {
    match find_char(s, '=') {
        None => None,
        Some(i) => if trim(s.subrange(0, i)).len() == 0 {
            None
        } else {
            Some((trim(s.subrange(0, i)), s.subrange(i + 1, s.len() as int)))
        },
    }
}

/// Parse the `--param name=value` pairs a command line carries.
pub fn overrides(raw: &Vec<String>) -> (r: Result<Vec<(String, String)>, WorkloadError>)
    ensures
        r is Ok <==> forall|i: int| 0 <= i < raw@.len() ==> (#[trigger] split_pair(raw@[i]@)) is Some,
        r matches Ok(pairs) ==> pairs@.len() == raw@.len() && forall|i: int|
            0 <= i < raw@.len() ==> Some(#[trigger] pair_views(pairs@)[i]) == split_pair(raw@[i]@),
        r matches Err(e) ==> e is MalformedParam,
{
    let mut pairs: Vec<(String, String)> = Vec::new();
    let mut i: usize = 0;
    while i < raw.len()
        invariant
            i <= raw@.len(),
            pairs@.len() == i,
            forall|k: int| 0 <= k < i ==> (#[trigger] split_pair(raw@[k]@)) is Some,
            forall|k: int|
                0 <= k < i ==> Some(#[trigger] pair_views(pairs@)[k]) == split_pair(raw@[k]@),
        decreases raw.len() - i,
    {
        let cs = chars_of(raw[i].as_str());
        match find_char_from(&cs, 0, '=') {
            Some(eq) => {
                assert(cs@.subrange(0, cs@.len() as int) =~= cs@);
                let (a, b) = trim_bounds(&cs, 0, eq);
                if a == b {
                    assert(split_pair(raw@[i as int]@) is None);
                    return Err(WorkloadError::MalformedParam { pair: raw[i].clone() });
                }
                let name = string_of(&cs, a, b);
                let value = string_of(&cs, eq + 1, cs.len());
                assert(split_pair(raw@[i as int]@) == Some((name@, value@)));
                let ghost earlier = pair_views(pairs@);
                pairs.push((name, value));
                assert(pair_views(pairs@) =~= earlier.push((name@, value@)));
            },
            None => {
                assert(cs@.subrange(0, cs@.len() as int) =~= cs@);
                assert(split_pair(raw@[i as int]@) is None);
                return Err(WorkloadError::MalformedParam { pair: raw[i].clone() });
            },
        }
        i += 1;
    }
    Ok(pairs)
}

impl Workload {
    /// Two workloads that say the same thing.
    pub open spec fn same_as(self, other: Workload) -> bool {
        &&& self.id@ == other.id@
        &&& self.description@ == other.description@
        &&& views(self.implementations@) == views(other.implementations@)
        &&& param_views(self.params@) == param_views(other.params@)
        &&& self.checksum == other.checksum
    }

    /// A copy of this workload.
    pub fn duplicate(&self) -> (r: Workload)
        ensures
            r.same_as(*self),
    {
        let mut params: Vec<Param> = Vec::new();
        let mut k: usize = 0;
        while k < self.params.len()
            invariant
                k <= self.params@.len(),
                params@.len() == k,
                forall|q: int| 0 <= q < k ==> #[trigger] params@[q]@ == self.params@[q]@,
            decreases self.params.len() - k,
        {
            params.push(self.params[k].clone_param());
            k += 1;
        }
        assert(param_views(params@) =~= param_views(self.params@));
        let implementations = crate::text::clone_strings(&self.implementations);
        Workload {
            id: self.id.clone(),
            description: self.description.clone(),
            implementations,
            params,
            checksum: self.checksum,
        }
    }
}

// ---------------------------------------------------------------------------
// Reading `workload.yaml`

/// The fields of `workload.yaml`.
pub open spec fn workload_fields() -> Seq<(Seq<char>, Shape, bool)> {
    seq![
        ("id"@, Shape::Text, true),
        ("description"@, Shape::Text, true),
        ("implementations"@, Shape::TextList, true),
        ("params"@, Shape::Params, true),
        ("checksum"@, Shape::Checksum, false),
    ]
}

/// Each field's spellings. The checksum is also read under the names the
/// campaign header and older manifests give it.
pub open spec fn workload_spellings() -> Seq<(Seq<char>, int)> {
    seq![
        ("id"@, 0),
        ("description"@, 1),
        ("implementations"@, 2),
        ("params"@, 3),
        ("checksum"@, 4),
        ("strict-checksum"@, 4),
        ("strict_checksum"@, 4),
    ]
}

fn workload_field_table() -> (r: Vec<(&'static str, Shape, bool)>)
    ensures
        field_views(r@) == workload_fields(),
{
    let mut t = Vec::new();
    t.push(("id", Shape::Text, true));
    t.push(("description", Shape::Text, true));
    t.push(("implementations", Shape::TextList, true));
    t.push(("params", Shape::Params, true));
    t.push(("checksum", Shape::Checksum, false));
    assert(field_views(t@) =~= workload_fields());
    t
}

fn workload_spelling_table() -> (r: Vec<(&'static str, usize)>)
    ensures
        spelling_views(r@) == workload_spellings(),
{
    let mut t = Vec::new();
    t.push(("id", 0));
    t.push(("description", 1));
    t.push(("implementations", 2));
    t.push(("params", 3));
    t.push(("checksum", 4));
    t.push(("strict-checksum", 4));
    t.push(("strict_checksum", 4));
    assert(spelling_views(t@) =~= workload_spellings());
    t
}

/// A param's value as the document wrote it: an integer, a boolean, a string.
pub open spec fn scalar_of(n: Option<Node>) -> ParamValueView {
    match n {
        Some(Node::Int(v)) => ParamValueView::Integer(v as i64),
        Some(Node::Bool(b)) => ParamValueView::Boolean(b),
        Some(Node::Str(s)) => ParamValueView::Text(s@),
        _ => ParamValueView::Text(Seq::empty()),
    }
}

/// A param, read off its mapping.
pub open spec fn param_of(n: Node) -> (Seq<char>, ParamValueView) {
    match n {
        Node::Mapping(es) => (
            node_text(value_of(entry_views(es@), crate::document::param_spellings(), 0)),
            scalar_of(value_of(entry_views(es@), crate::document::param_spellings(), 1)),
        ),
        _ => (Seq::empty(), ParamValueView::Text(Seq::empty())),
    }
}

pub open spec fn params_of(n: Option<Node>) -> Seq<(Seq<char>, ParamValueView)> {
    match n {
        Some(Node::List(v)) => v@.map_values(|x: Node| param_of(x)),
        _ => Seq::empty(),
    }
}

/// A checksum as the document spells it: nothing, an integer, or digits.
pub open spec fn checksum_of(n: Option<Node>) -> Option<u64> {
    match n {
        Some(Node::Int(v)) => Some(v as u64),
        Some(Node::Str(t)) => crate::text::parse_u64(trim(t@)),
        _ => None,
    }
}

impl Workload {
    /// What a workload manifest says, read off the entries of its mapping.
    pub open spec fn read_from(self, entries: Seq<(Seq<char>, Node)>) -> bool {
        let sp = workload_spellings();
        &&& self.id@ == node_text(value_of(entries, sp, 0))
        &&& self.description@ == node_text(value_of(entries, sp, 1))
        &&& views(self.implementations@) == node_texts(value_of(entries, sp, 2))
        &&& param_views(self.params@) == params_of(value_of(entries, sp, 3))
        &&& self.checksum == checksum_of(value_of(entries, sp, 4))
    }

    /// Read a `workload.yaml` document: strictly, like a `bench.yaml`, and
    /// then held to the rule a struct cannot express — it names itself.
    pub fn from_node(node: &Node) -> (r: Result<Workload, WorkloadError>)
        ensures
            match *node {
                Node::Mapping(entries) => {
                    let ev = entry_views(entries@);
                    let problem = read_problem(ev, workload_fields(), workload_spellings(), true);
                    match r {
                        Ok(w) => problem is None && trim(w.id@).len() > 0 && w.read_from(ev),
                        Err(WorkloadError::Manifest(e)) => problem == Some(e.problem()),
                        Err(WorkloadError::MissingId) => problem is None && trim(
                            node_text(value_of(ev, workload_spellings(), 0)),
                        ).len() == 0,
                        Err(_) => false,
                    }
                },
                _ => r matches Err(WorkloadError::Manifest(ManifestError::NotAMapping)),
            },
    {
        let entries = match node {
            Node::Mapping(entries) => entries,
            _ => {
                return Err(WorkloadError::Manifest(ManifestError::NotAMapping));
            },
        };
        let fields = workload_field_table();
        let spellings = workload_spelling_table();
        let pos = match read_fields(entries, &fields, &spellings, true) {
            Ok(pos) => pos,
            Err(e) => {
                return Err(WorkloadError::Manifest(e));
            },
        };
        let ghost ev = entry_views(entries@);
        proof {
            lemma_positions_give_values(pos@, ev, workload_fields(), workload_spellings(), true);
            lemma_scan_none(ev, workload_fields(), workload_spellings(), true);
            assert(crate::document::first_missing(ev, workload_fields(), workload_spellings(), 0)
                is None);
            assert forall|f: int| 0 <= f < 5 implies (#[trigger] pos@[f] matches Some(j) ==> j
                < entries@.len()) by {}
        }
        let id = unwrap_or_empty(text_at(entries, pos[0]));
        let description = unwrap_or_empty(text_at(entries, pos[1]));
        let implementations = texts_at(entries, pos[2]);
        let params = read_params(entries, &pos);
        let checksum = checksum_at(entries, pos[4]);
        let w = Workload { id, description, implementations, params, checksum };
        w.validate()
    }
}

fn unwrap_or_empty(t: Option<String>) -> (r: String)
    ensures
        r@ == match crate::sample::opt_text(t) {
            Some(s) => s,
            None => Seq::<char>::empty(),
        },
{
    match t {
        Some(s) => s,
        None => String::new(),
    }
}

fn checksum_at(entries: &Vec<(String, Node)>, p: Option<usize>) -> (r: Option<u64>)
    requires
        p matches Some(j) ==> j < entries@.len(),
    ensures
        r == checksum_of(
            match p {
                Some(j) => Some(entries@[j as int].1),
                None => None::<Node>,
            },
        ),
{
    match p {
        Some(j) => match &entries[j].1 {
            Node::Int(v) => Some(*v as u64),
            Node::Str(t) => crate::text::parse_u64_exec(trimmed(t.as_str()).as_str()),
            _ => None,
        },
        None => None,
    }
}

/// The params, once the mapping has read without a problem.
fn read_params(entries: &Vec<(String, Node)>, pos: &Vec<Option<usize>>) -> (r: Vec<Param>)
    requires
        read_problem(entry_views(entries@), workload_fields(), workload_spellings(), true) is None,
        positions_of(pos@, entry_views(entries@), workload_fields(), workload_spellings()),
    ensures
        param_views(r@) == params_of(
            match pos@[3] {
                Some(j) => Some(entries@[j as int].1),
                None => None::<Node>,
            },
        ),
{
    let ghost ev = entry_views(entries@);
    proof {
        lemma_scan_none(ev, workload_fields(), workload_spellings(), true);
    }
    let j = match pos[3] {
        Some(j) => j,
        None => {
            proof {
                assert(crate::document::first_missing(ev, workload_fields(), workload_spellings(), 0)
                    is None);
                assert(crate::document::first_missing(ev, workload_fields(), workload_spellings(), 1)
                    is None);
                assert(crate::document::first_missing(ev, workload_fields(), workload_spellings(), 2)
                    is None);
                assert(crate::document::first_missing(ev, workload_fields(), workload_spellings(), 3)
                    is None);
                assert(crate::document::present(ev, workload_spellings(), 3));
            }
            return Vec::new();
        },
    };
    let mut out: Vec<Param> = Vec::new();
    match &entries[j].1 {
        Node::List(v) => {
            proof {
                assert(crate::document::entry_problem(
                    ev[j as int],
                    ev.take(j as int),
                    workload_fields(),
                    workload_spellings(),
                    true,
                ) is None);
                lemma_fits_params(ev[j as int].1, true);
            }
            let fields = crate::document::param_field_table();
            let spellings = crate::document::param_spelling_table();
            let mut i: usize = 0;
            while i < v.len()
                invariant
                    i <= v@.len(),
                    field_views(fields@) == crate::document::param_fields(),
                    spelling_views(spellings@) == crate::document::param_spellings(),
                    forall|q: int| 0 <= q < v@.len() ==> crate::document::param_ok(#[trigger] v@[q]),
                    param_views(out@) == v@.take(i as int).map_values(|x: Node| param_of(x)),
                decreases v.len() - i,
            {
                assert(crate::document::param_ok(v@[i as int]));
                match &v[i] {
                    Node::Mapping(es) => {
                        match read_fields(es, &fields, &spellings, false) {
                            Ok(ppos) => {
                                proof {
                                    lemma_positions_give_values(
                                        ppos@,
                                        entry_views(es@),
                                        crate::document::param_fields(),
                                        crate::document::param_spellings(),
                                        false,
                                    );
                                    assert forall|f: int| 0 <= f < 2 implies (
                                    #[trigger] ppos@[f] matches Some(k) ==> k < es@.len()) by {}
                                }
                                let name = unwrap_or_empty(text_at(es, ppos[0]));
                                let value = scalar_at(es, ppos[1]);
                                let ghost before = param_views(out@);
                                out.push(Param { name, value });
                                assert(param_views(out@) =~= before.push(param_of(v@[i as int])));
                            },
                            Err(_) => {
                                proof {
                                    assert(false);
                                }
                            },
                        }
                    },
                    _ => {
                        proof {
                            assert(false);
                        }
                    },
                }
                i += 1;
                assert(v@.take(i as int).map_values(|x: Node| param_of(x)) =~= v@.take(
                    (i - 1) as int,
                ).map_values(|x: Node| param_of(x)).push(param_of(v@[i - 1])));
            }
            assert(v@.take(i as int) =~= v@);
            out
        },
        _ => out,
    }
}

fn scalar_at(entries: &Vec<(String, Node)>, p: Option<usize>) -> (r: ParamValue)
    requires
        p matches Some(j) ==> j < entries@.len(),
    ensures
        r@ == scalar_of(
            match p {
                Some(j) => Some(entries@[j as int].1),
                None => None::<Node>,
            },
        ),
{
    match p {
        Some(j) => match &entries[j].1 {
            Node::Int(v) => ParamValue::Integer(*v as i64),
            Node::Bool(b) => ParamValue::Boolean(*b),
            Node::Str(s) => ParamValue::Text(s.clone()),
            _ => ParamValue::Text(String::new()),
        },
        None => ParamValue::Text(String::new()),
    }
}

/// The `argv` tokens of a list of params, in order.
pub open spec fn argv_of(params: Seq<Param>) -> Seq<Seq<char>> {
    params.map_values(|p: Param| value_text(p.value@))
}

} // verus!
