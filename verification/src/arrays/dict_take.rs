//! Taking values of a dictionary by its codes.

use crate::arrays::array::ValueArray;
use crate::arrays::validity::Validity;
use crate::dtype::{law_nullability_is_all_that_changes, Nullability};
use crate::scalar::{Scalar, Value, ValueView};
use smallvec::SmallVec;
use vstd::prelude::*;

verus! {

/// A statistic that a take carries over.
#[derive(Clone, Copy, Debug, PartialEq, Eq, Structural)]
pub enum Stat {
    Min,
    Max,
    UncompressedSizeInBytes,
    IsConstant,
}

/// How well a statistic is known.
#[derive(Debug)]
pub enum Precision {
    Exact(Value),
    /// The value is a bound or a guess.
    Inexact(Value),
    Absent,
}

/// What a `Precision` is.
pub enum PrecisionView {
    Exact(ValueView),
    Inexact(ValueView),
    Absent,
}

impl Precision {
    /// The precision itself.
    pub open spec fn view(&self) -> PrecisionView {
        match self {
            Precision::Exact(v) => PrecisionView::Exact(v@),
            Precision::Inexact(v) => PrecisionView::Inexact(v@),
            Precision::Absent => PrecisionView::Absent,
        }
    }

    /// Returns the statistic as one that is known inexactly.
    pub fn as_inexact(&self) -> (r: Precision)
        ensures
            r@ == self@.inexact(),
    {
        match self {
            Precision::Exact(v) => Precision::Inexact(v.duplicate()),
            Precision::Inexact(v) => Precision::Inexact(v.duplicate()),
            Precision::Absent => Precision::Absent,
        }
    }

    /// Returns whether nothing is known.
    pub fn is_absent(&self) -> (r: bool)
        ensures
            r == (self@ is Absent),
    {
        match self {
            Precision::Absent => true,
            _ => false,
        }
    }
}

impl PrecisionView {
    /// The statistic, known inexactly.
    pub open spec fn inexact(self) -> PrecisionView {
        match self {
            PrecisionView::Exact(v) => PrecisionView::Inexact(v),
            PrecisionView::Inexact(v) => PrecisionView::Inexact(v),
            PrecisionView::Absent => PrecisionView::Absent,
        }
    }

    /// This statistic, or the other where nothing is known of this one.
    pub open spec fn or(self, other: PrecisionView) -> PrecisionView {
        if self is Absent {
            other
        } else {
            self
        }
    }
}

/// The statistics of an array.
#[derive(Debug)]
pub struct StatsSet {
    pub min: Precision,
    pub max: Precision,
    pub uncompressed_size_in_bytes: Precision,
    pub is_constant: Precision,
}

impl StatsSet {
    /// What is known of a statistic.
    pub open spec fn known(self, stat: Stat) -> PrecisionView {
        match stat {
            Stat::Min => self.min@,
            Stat::Max => self.max@,
            Stat::UncompressedSizeInBytes => self.uncompressed_size_in_bytes@,
            Stat::IsConstant => self.is_constant@,
        }
    }

    /// Returns statistics of which nothing is known.
    pub fn new() -> (r: StatsSet)
        ensures
            forall|stat: Stat| #[trigger] r.known(stat) is Absent,
    {
        StatsSet {
            min: Precision::Absent,
            max: Precision::Absent,
            uncompressed_size_in_bytes: Precision::Absent,
            is_constant: Precision::Absent,
        }
    }

    /// Returns what is known of a statistic.
    pub fn get(&self, stat: Stat) -> (r: &Precision)
        ensures
            r@ == self.known(stat),
    {
        match stat {
            Stat::Min => &self.min,
            Stat::Max => &self.max,
            Stat::UncompressedSizeInBytes => &self.uncompressed_size_in_bytes,
            Stat::IsConstant => &self.is_constant,
        }
    }

    /// Takes note of a statistic.
    pub fn set(&mut self, stat: Stat, precision: Precision)
        ensures
            forall|s: Stat| #[trigger]
                final(self).known(s) == if s == stat {
                    precision@
                } else {
                    old(self).known(s)
                },
    {
        match stat {
            Stat::Min => {
                self.min = precision;
            },
            Stat::Max => {
                self.max = precision;
            },
            Stat::UncompressedSizeInBytes => {
                self.uncompressed_size_in_bytes = precision;
            },
            Stat::IsConstant => {
                self.is_constant = precision;
            },
        }
    }
}

/// A list of small numbers, of which a few are held in place by a `smallvec::SmallVec`.
#[verifier::external_body]
pub struct SmallList {
    inner: SmallVec<[u8; 4]>,
}

/// The numbers of a list, in order.
pub uninterp spec fn listed(list: SmallList) -> Seq<u8>;

/// Makes an empty list, with `smallvec::SmallVec::new`.
#[verifier::external_body]
fn empty_list() -> (r: SmallList)
    ensures
        listed(r) == Seq::<u8>::empty(),
{
    SmallList { inner: SmallVec::new() }
}

/// Adds a number to the end of a list, with `smallvec::SmallVec::push`.
#[verifier::external_body]
fn push_listed(list: &mut SmallList, item: u8)
    ensures
        listed(*final(list)) == listed(*old(list)).push(item),
{
    list.inner.push(item);
}

/// Returns the numbers of a list in order, with `smallvec::SmallVec::into_vec`.
#[verifier::external_body]
fn listed_vec(list: SmallList) -> (r: Vec<u8>)
    ensures
        r@ == listed(list),
{
    list.inner.into_vec()
}

/// The codes of a dictionary: the places of values, some of which may be null.
#[derive(Debug)]
pub struct Codes {
    pub indices: Vec<u64>,
    pub validity: Validity,
}

/// An array and what is known of it.
#[derive(Debug)]
pub struct StatArray {
    pub array: ValueArray,
    pub stats: StatsSet,
}

/// Whether a validity says that nothing is null, without a look at the single values.
pub open spec fn marked_all_valid(validity: Validity) -> bool {
    validity is NonNullable || validity is AllValid
}

/// What is known of a statistic of the taken array, given what was known of it and of the array
/// that it was taken from.
///
/// Any combination of values of a constant array is constant, unless an index is null. Apart from
/// that what is known of the source carries over inexactly where nothing is known of the target.
pub open spec fn taken_stat(
    source: StatsSet,
    target: StatsSet,
    all_valid: bool,
    stat: Stat,
) -> PrecisionView {
    if stat == Stat::IsConstant && all_valid && source.known(Stat::IsConstant)
        == PrecisionView::Exact(ValueView::Bool(true)) {
        PrecisionView::Exact(ValueView::Bool(true))
    } else {
        target.known(stat).or(source.known(stat).inexact())
    }
}

/// The place of a statistic in the order in which statistics are carried over.
spec fn stat_code(stat: Stat) -> u8 {
    match stat {
        Stat::Min => 0,
        Stat::Max => 1,
        Stat::UncompressedSizeInBytes => 2,
        Stat::IsConstant => 3,
    }
}

fn stat_of(code: u8) -> (r: Stat)
    requires
        code < 4,
    ensures
        stat_code(r) == code,
{
    match code {
        0 => Stat::Min,
        1 => Stat::Max,
        2 => Stat::UncompressedSizeInBytes,
        _ => Stat::IsConstant,
    }
}

/// Carries what is known of an array over to one that was taken from it.
pub fn propagate_take_stats(source: &StatsSet, target: &mut StatsSet, indices: &Codes)
    ensures
        forall|stat: Stat| #[trigger]
            final(target).known(stat) == taken_stat(
                *source,
                *old(target),
                marked_all_valid(indices.validity),
                stat,
            ),
{
    let all_valid = match indices.validity {
        Validity::NonNullable => true,
        Validity::AllValid => true,
        _ => false,
    };
    if all_valid {
        let constant = match source.get(Stat::IsConstant) {
            Precision::Exact(Value::Bool(b)) => *b,
            _ => false,
        };
        if constant {
            target.set(Stat::IsConstant, Precision::Exact(Value::Bool(true)));
        }
    }
    let mut carried = empty_list();
    let mut code: u8 = 0;
    while code < 4
        invariant
            code <= 4,
            forall|k: int| 0 <= k < listed(carried).len() ==> (#[trigger] listed(carried)[k]) < code,
            forall|k: int, m: int|
                0 <= k < m < listed(carried).len() ==> listed(carried)[k] < listed(carried)[m],
            forall|s: Stat|
                stat_code(s) < code ==> (listed(carried).contains(stat_code(s)) <==> !(
                #[trigger] source.known(s) is Absent)),
        decreases 4 - code,
    {
        let stat = stat_of(code);
        let ghost before = listed(carried);
        if !source.get(stat).is_absent() {
            push_listed(&mut carried, code);
            proof {
                let after = listed(carried);
                assert(after[after.len() - 1] == code);
                assert forall|s: Stat| stat_code(s) < code + 1 implies (after.contains(
                    stat_code(s),
                ) <==> !(#[trigger] source.known(s) is Absent)) by {
                    if stat_code(s) < code {
                        if before.contains(stat_code(s)) {
                            let k = choose|k: int| 0 <= k < before.len() && before[k] == stat_code(s);
                            assert(after[k] == stat_code(s));
                        }
                        if after.contains(stat_code(s)) {
                            let k = choose|k: int| 0 <= k < after.len() && after[k] == stat_code(s);
                            assert(before[k] == stat_code(s));
                        }
                    } else {
                        assert(s == stat);
                    }
                }
            }
        } else {
            proof {
                assert forall|s: Stat| stat_code(s) < code + 1 implies (before.contains(
                    stat_code(s),
                ) <==> !(#[trigger] source.known(s) is Absent)) by {
                    if stat_code(s) == code {
                        assert(s == stat);
                        if before.contains(code) {
                            let k = choose|k: int| 0 <= k < before.len() && before[k] == code;
                            assert(before[k] < code);
                        }
                    }
                }
            }
        }
        code += 1;
    }
    let codes = listed_vec(carried);
    let ghost mid = *target;
    let mut i: usize = 0;
    while i < codes.len()
        invariant
            0 <= i <= codes.len(),
            forall|k: int| 0 <= k < codes.len() ==> (#[trigger] codes@[k]) < 4,
            forall|k: int, m: int| 0 <= k < m < codes.len() ==> codes@[k] < codes@[m],
            forall|s: Stat| #[trigger]
                target.known(s) == if codes@.take(i as int).contains(stat_code(s)) {
                    mid.known(s).or(source.known(s).inexact())
                } else {
                    mid.known(s)
                },
        decreases codes.len() - i,
    {
        let stat = stat_of(codes[i]);
        let ghost prefix = codes@.take(i as int);
        let ghost longer = codes@.take(i as int + 1);
        proof {
            assert(longer =~= prefix.push(codes@[i as int]));
            assert(longer[i as int] == stat_code(stat));
            if prefix.contains(stat_code(stat)) {
                let k = choose|k: int| 0 <= k < prefix.len() && prefix[k] == stat_code(stat);
                assert(codes@[k] < codes@[i as int]);
            }
            assert forall|s: Stat| s != stat implies (#[trigger] longer.contains(stat_code(s))
                <==> prefix.contains(stat_code(s))) by {
                if longer.contains(stat_code(s)) {
                    let k = choose|k: int| 0 <= k < longer.len() && longer[k] == stat_code(s);
                    assert(k != i);
                    assert(prefix[k] == stat_code(s));
                }
                if prefix.contains(stat_code(s)) {
                    let k = choose|k: int| 0 <= k < prefix.len() && prefix[k] == stat_code(s);
                    assert(longer[k] == stat_code(s));
                }
            }
        }
        if target.get(stat).is_absent() {
            let inexact = source.get(stat).as_inexact();
            target.set(stat, inexact);
        }
        i += 1;
    }
    proof {
        assert(codes@.take(i as int) =~= codes@);
        assert forall|stat: Stat| #[trigger] target.known(stat) == taken_stat(
            *source,
            *old(target),
            marked_all_valid(indices.validity),
            stat,
        ) by {
            assert(codes@.contains(stat_code(stat)) <==> !(source.known(stat) is Absent));
        }
    }
}

/// Short-circuits a take for the inputs that need no encoding-specific work: without indices the
/// result is empty, and of an array without values only nulls can be taken.
///
/// Returns nothing when the take must proceed normally.
pub fn short_circuit(array: &ValueArray, indices: &Codes) -> (r: Option<ValueArray>)
    ensures
        r is Some <==> indices.indices.len() == 0 || array.content().len() == 0,
        r matches Some(taken) ==> is_short_circuit(*array, *indices, taken),
{
    if indices.indices.len() == 0 {
        let dtype = array.dtype.union_nullability(indices.validity.nullability());
        return Some(ValueArray::empty(dtype));
    }
    if array.len() == 0 {
        let null = Scalar { dtype: array.dtype.as_nullable(), value: None };
        return Some(ValueArray::constant(null, indices.indices.len()));
    }
    None
}

/// Whether `taken` is what a take without encoding-specific work gives.
pub open spec fn is_short_circuit(array: ValueArray, indices: Codes, taken: ValueArray) -> bool {
    if indices.indices@.len() == 0 {
        &&& taken.content() == Seq::<Option<ValueView>>::empty()
        &&& taken.dtype@ == array.dtype@.union_nullability(indices.validity.nullability_spec())
    } else {
        &&& array.content().len() == 0
        &&& taken.content() == Seq::new(indices.indices@.len(), |i: int| None::<ValueView>)
        &&& taken.dtype@ == array.dtype@.as_nullable()
    }
}

/// Why a take failed.
#[derive(Clone, Copy, Debug, PartialEq, Eq, Structural)]
pub struct TakeError;

/// An encoding that can take values without reading buffers.
pub trait TakeReduce {
    /// Takes values of an array at the given indices, of which there is at least one. Returns
    /// nothing if that takes buffer access.
    fn take(&self, array: &ValueArray, indices: &Codes) -> Result<Option<StatArray>, TakeError>;
}

/// An encoding that can take values, potentially reading buffers.
pub trait TakeExecute {
    /// Takes values of an array at the given indices, of which there is at least one.
    fn take(&self, array: &ValueArray, indices: &Codes) -> Result<Option<StatArray>, TakeError>;
}

/// Whether `r` is what a take gives for the child of a dictionary: nothing for the codes, and for
/// the values the short cut, of which nothing more is known, or what the encoding took with the
/// statistics carried over.
pub open spec fn is_take_of_child(
    array: StatArray,
    codes: Codes,
    child_idx: usize,
    taken: Option<Result<Option<StatArray>, TakeError>>,
    r: Result<Option<StatArray>, TakeError>,
) -> bool {
    if child_idx != 1 {
        r == Ok::<Option<StatArray>, TakeError>(None)
    } else if codes.indices@.len() == 0 || array.array.content().len() == 0 {
        r matches Ok(Some(out)) && is_short_circuit(array.array, codes, out.array) && (forall|
            stat: Stat,
        | #[trigger]
            out.stats.known(stat) is Absent)
    } else {
        match taken {
            Some(Ok(Some(t))) => r matches Ok(Some(out)) && out.array == t.array && (forall|
                stat: Stat,
            | #[trigger]
                out.stats.known(stat) == taken_stat(
                    array.stats,
                    t.stats,
                    marked_all_valid(codes.validity),
                    stat,
                )),
            Some(Ok(None)) => r == Ok::<Option<StatArray>, TakeError>(None),
            Some(Err(e)) => r == Err::<Option<StatArray>, TakeError>(e),
            None => false,
        }
    }
}

/// Hands what an encoding took on, with the statistics of the array that it was taken from.
fn with_stats(
    array: &StatArray,
    codes: &Codes,
    taken: Result<Option<StatArray>, TakeError>,
) -> (r: Result<Option<StatArray>, TakeError>)
    requires
        codes.indices@.len() > 0,
        array.array.content().len() > 0,
    ensures
        is_take_of_child(*array, *codes, 1, Some(taken), r),
{
    match taken {
        Ok(Some(t)) => {
            let mut stats = t.stats;
            propagate_take_stats(&array.stats, &mut stats, codes);
            Ok(Some(StatArray { array: t.array, stats }))
        },
        Ok(None) => Ok(None),
        Err(e) => Err(e),
    }
}

/// Returns what a take gives for the child of a dictionary where that does not depend on the
/// encoding, if it does not.
fn without_encoding(array: &StatArray, codes: &Codes, child_idx: usize) -> (r: Option<
    Option<StatArray>,
>)
    ensures
        r is None <==> child_idx == 1 && codes.indices@.len() > 0 && array.array.content().len()
            > 0,
        r matches Some(settled) ==> is_take_of_child(*array, *codes, child_idx, None, Ok(settled)),
{
    if child_idx != 1 {
        return Some(None);
    }
    match short_circuit(&array.array, codes) {
        Some(result) => Some(Some(StatArray { array: result, stats: StatsSet::new() })),
        None => None,
    }
}

/// Lets an encoding reduce a dictionary that it holds the values of.
#[derive(Debug)]
pub struct TakeReduceAdaptor<V>(pub V);

impl<V: TakeReduce> TakeReduceAdaptor<V> {
    /// Reduces a dictionary, given the child that the array is of it. Only the values, child 1,
    /// are handled, not the codes.
    pub fn reduce_parent(&self, array: &StatArray, codes: &Codes, child_idx: usize) -> (r: Result<
        Option<StatArray>,
        TakeError,
    >)
        ensures
            exists|taken: Option<Result<Option<StatArray>, TakeError>>|
                (taken matches Some(t) ==> call_ensures(
                    V::take,
                    (&self.0, &array.array, codes),
                    t,
                )) && #[trigger] is_take_of_child(*array, *codes, child_idx, taken, r),
    {
        if let Some(settled) = without_encoding(array, codes, child_idx) {
            return Ok(settled);
        }
        let taken = self.0.take(&array.array, codes);
        with_stats(array, codes, taken)
    }
}

/// Lets an encoding execute a dictionary that it holds the values of.
#[derive(Debug)]
pub struct TakeExecuteAdaptor<V>(pub V);

impl<V: TakeExecute> TakeExecuteAdaptor<V> {
    /// Executes a dictionary, given the child that the array is of it. Only the values, child 1,
    /// are handled, not the codes.
    pub fn execute_parent(&self, array: &StatArray, codes: &Codes, child_idx: usize) -> (r: Result<
        Option<StatArray>,
        TakeError,
    >)
        ensures
            exists|taken: Option<Result<Option<StatArray>, TakeError>>|
                (taken matches Some(t) ==> call_ensures(
                    V::take,
                    (&self.0, &array.array, codes),
                    t,
                )) && #[trigger] is_take_of_child(*array, *codes, child_idx, taken, r),
    {
        if let Some(settled) = without_encoding(array, codes, child_idx) {
            return Ok(settled);
        }
        let taken = self.0.take(&array.array, codes);
        with_stats(array, codes, taken)
    }
}

/// A take with a null index never makes a statistic exact that was not exact before.
pub proof fn law_null_index_proves_nothing_exact(source: StatsSet, target: StatsSet, stat: Stat)
    requires
        !(target.known(stat) is Exact),
    ensures
        !(taken_stat(source, target, false, stat) is Exact),
{
}

/// What is known of the source is never lost by a take: a statistic of it leaves the target with
/// at least an inexact one.
pub proof fn law_known_statistics_carry_over(
    source: StatsSet,
    target: StatsSet,
    all_valid: bool,
    stat: Stat,
)
    requires
        !(source.known(stat) is Absent),
    ensures
        !(taken_stat(source, target, all_valid, stat) is Absent),
{
}

/// Whether all values are the same.
pub open spec fn all_the_same(values: Seq<Option<ValueView>>) -> bool {
    forall|i: int, j: int|
        #![trigger values[i], values[j]]
        0 <= i < values.len() && 0 <= j < values.len() ==> values[i] == values[j]
}

/// The values at the codes, null where the code is.
pub open spec fn values_at(values: Seq<Option<ValueView>>, codes: Codes) -> Seq<Option<ValueView>> {
    Seq::new(
        codes.indices@.len(),
        |i: int|
            if codes.validity.valid(i) {
                values[codes.indices@[i] as int]
            } else {
                None
            },
    )
}

/// Whether each code is null or the place of a value.
pub open spec fn codes_fit(values: Seq<Option<ValueView>>, codes: Codes) -> bool {
    &&& codes.validity.wf(codes.indices@.len())
    &&& forall|i: int|
        0 <= i < codes.indices@.len() && #[trigger] codes.validity.valid(i) ==> codes.indices@[i]
            < values.len()
}

/// Whether all that is known exactly is true of the values, where `means` says what a statistic
/// tells of values.
pub open spec fn stats_are_true(
    stats: StatsSet,
    values: Seq<Option<ValueView>>,
    means: spec_fn(Stat, ValueView, Seq<Option<ValueView>>) -> bool,
) -> bool {
    forall|stat: Stat, v: ValueView|
        #![trigger means(stat, v, values)]
        stats.known(stat) == PrecisionView::Exact(v) ==> means(stat, v, values)
}

/// What is known exactly after a take is true of the values that were taken, where all that was
/// known exactly of the array and of what was taken of it was true.
pub proof fn law_what_is_exact_after_a_take_is_true(
    source: StatsSet,
    target: StatsSet,
    values: Seq<Option<ValueView>>,
    codes: Codes,
    means: spec_fn(Stat, ValueView, Seq<Option<ValueView>>) -> bool,
    stat: Stat,
    v: ValueView,
)
    requires
        codes_fit(values, codes),
        forall|b: bool, vs: Seq<Option<ValueView>>| #[trigger]
            means(Stat::IsConstant, ValueView::Bool(b), vs) <==> b == all_the_same(vs),
        stats_are_true(source, values, means),
        stats_are_true(target, values_at(values, codes), means),
        taken_stat(source, target, marked_all_valid(codes.validity), stat) == PrecisionView::Exact(
            v,
        ),
    ensures
        means(stat, v, values_at(values, codes)),
{
    let taken = values_at(values, codes);
    if target.known(stat) != PrecisionView::Exact(v) {
        assert(source.known(Stat::IsConstant) == PrecisionView::Exact(ValueView::Bool(true)));
        assert(means(Stat::IsConstant, ValueView::Bool(true), values));
        assert(all_the_same(values));
        assert forall|i: int, j: int|
            #![trigger taken[i], taken[j]]
            0 <= i < taken.len() && 0 <= j < taken.len() implies taken[i] == taken[j] by {
            assert(codes.validity.valid(i) && codes.validity.valid(j));
            assert(values[codes.indices@[i] as int] == values[codes.indices@[j] as int]);
        }
    }
}

/// A take makes nothing exact but that the taken values are all the same, and that only where the
/// array is known exactly to be constant and no code is null; there it always does.
pub proof fn law_a_take_makes_only_constancy_exact(
    source: StatsSet,
    target: StatsSet,
    codes: Codes,
    stat: Stat,
)
    requires
        !(target.known(stat) is Exact),
        codes.validity.wf(codes.indices@.len()),
    ensures
        ({
            let after = taken_stat(source, target, marked_all_valid(codes.validity), stat);
            &&& after is Exact ==> stat == Stat::IsConstant && after->Exact_0 == ValueView::Bool(
                true,
            ) && source.known(Stat::IsConstant) == PrecisionView::Exact(ValueView::Bool(true))
                && codes.validity.all_valid(codes.indices@.len())
            &&& stat == Stat::IsConstant && source.known(stat) == PrecisionView::Exact(
                ValueView::Bool(true),
            ) && (codes.validity is NonNullable || codes.validity is AllValid) ==> after is Exact
        }),
{
}

/// A take changes no value that is known: what is known of the target stays as it is, what is known
/// of the array alone carries over inexactly and with its value, and nothing comes from nowhere. The
/// one exception is that the taken values are all the same.
pub proof fn law_a_take_invents_no_value(
    source: StatsSet,
    target: StatsSet,
    all_valid: bool,
    stat: Stat,
)
    requires
        stat != Stat::IsConstant || !(source.known(stat) is Exact),
    ensures
        ({
            let after = taken_stat(source, target, all_valid, stat);
            match target.known(stat) {
                PrecisionView::Exact(v) => after == PrecisionView::Exact(v),
                PrecisionView::Inexact(v) => after == PrecisionView::Inexact(v),
                PrecisionView::Absent => match source.known(stat) {
                    PrecisionView::Exact(v) => after == PrecisionView::Inexact(v),
                    PrecisionView::Inexact(v) => after == PrecisionView::Inexact(v),
                    PrecisionView::Absent => after is Absent,
                },
            }
        }),
{
}

/// A short cut takes what a take would: the values at the codes, in the type of the values, which
/// has a null if that type has one or a code may be null.
pub proof fn law_a_short_cut_is_a_take(array: ValueArray, codes: Codes, taken: ValueArray)
    requires
        is_short_circuit(array, codes, taken),
        codes_fit(array.content(), codes),
    ensures
        taken.content() == values_at(array.content(), codes),
        taken.dtype@.same_base(array.dtype@),
        taken.dtype@.is_nullable() <==> array.dtype@.is_nullable() || !(
        codes.validity is NonNullable),
{
    let n = if codes.indices@.len() == 0 {
        array.dtype@.nullability().union_spec(codes.validity.nullability_spec())
    } else {
        Nullability::Nullable
    };
    law_nullability_is_all_that_changes(array.dtype@, n);
    if codes.indices@.len() > 0 {
        assert(!codes.validity.valid(0));
    }
    assert(taken.content() =~= values_at(array.content(), codes));
}

/// A dictionary of which an encoding reduces the values is replaced by the values at its codes,
/// where what the encoding took is those; and what is then known exactly is true of them. Of the
/// codes nothing is replaced, and where an encoding takes nothing or fails, so does this.
pub proof fn law_a_reduced_dictionary_holds_the_values_at_its_codes(
    array: StatArray,
    codes: Codes,
    child_idx: usize,
    taken: Option<Result<Option<StatArray>, TakeError>>,
    r: Result<Option<StatArray>, TakeError>,
)
    requires
        is_take_of_child(array, codes, child_idx, taken, r),
        codes_fit(array.array.content(), codes),
        taken matches Some(Ok(Some(t))) ==> t.array.content() == values_at(
            array.array.content(),
            codes,
        ),
    ensures
        r matches Ok(Some(out)) ==> child_idx == 1 && out.array.content() == values_at(
            array.array.content(),
            codes,
        ),
        child_idx == 1 && (codes.indices.len() == 0 || array.array.content().len() == 0) ==> (r
            matches Ok(Some(out)) && forall|stat: Stat| #[trigger] out.stats.known(stat) is Absent),
        child_idx == 1 && codes.indices.len() > 0 && array.array.content().len() > 0 ==> match taken {
            Some(Ok(Some(t))) => (r matches Ok(Some(out)) && forall|stat: Stat| #[trigger]
                out.stats.known(stat) is Exact ==> t.stats.known(stat) is Exact || stat
                    == Stat::IsConstant),
            Some(Ok(None)) => r matches Ok(None),
            Some(Err(_)) => r is Err,
            None => false,
        },
{
    if let Ok(Some(out)) = r {
        if codes.indices@.len() == 0 || array.array.content().len() == 0 {
            law_a_short_cut_is_a_take(array.array, codes, out.array);
        }
    }
}

/// An encoding is asked for the values of a dictionary only, never for its codes, whether it reduces
/// or executes.
pub proof fn law_codes_are_not_taken<V: TakeReduce, W: TakeExecute>(
    reducing: TakeReduceAdaptor<V>,
    executing: TakeExecuteAdaptor<W>,
    array: StatArray,
    codes: Codes,
    child_idx: usize,
    reduced: Result<Option<StatArray>, TakeError>,
    executed: Result<Option<StatArray>, TakeError>,
)
    requires
        child_idx != 1,
        call_ensures(
            TakeReduceAdaptor::<V>::reduce_parent,
            (&reducing, &array, &codes, child_idx),
            reduced,
        ),
        call_ensures(
            TakeExecuteAdaptor::<W>::execute_parent,
            (&executing, &array, &codes, child_idx),
            executed,
        ),
    ensures
        reduced == Ok::<Option<StatArray>, TakeError>(None),
        executed == Ok::<Option<StatArray>, TakeError>(None),
{
}

} // verus!
