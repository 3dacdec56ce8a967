//! Reconciling the type directives of a run.
//!
//! A run names columns in four lists, one for each numeric width. An entry is
//! either a column's name or a wildcard, which sets the width that columns of
//! that kind get when no entry names them. The lists are taken in a fixed order:
//! 32-bit integers, 64-bit integers, 32-bit floats, 64-bit floats.

use vstd::prelude::*;
use crate::overrides::TypeOverrides;
use crate::schema::NumericType;

verus! {

/// Whether `name` is one of the two spellings of the wildcard.
pub open spec fn is_wildcard(name: Seq<char>) -> bool {
    name == "*"@ || name == "__all__"@
}

/// The entries of a list, each as a sequence of characters.
pub open spec fn names_of(list: Seq<String>) -> Seq<Seq<char>> {
    Seq::new(list.len(), |i: int| list[i]@)
}

/// The entries of a list that may be absent: an absent list has none.
pub open spec fn listed(list: Option<Vec<String>>) -> Seq<Seq<char>> {
    match list {
        Some(v) => names_of(v@),
        None => Seq::empty(),
    }
}

/// Whether a list holds a wildcard.
pub open spec fn has_wildcard(list: Seq<Seq<char>>) -> bool {
    exists|i: int| 0 <= i < list.len() && is_wildcard(#[trigger] list[i])
}

/// One entry of a list together with the width of the list it stands in.
pub struct Directive {
    pub name: Seq<char>,
    pub numeric: NumericType,
}

/// The entries of one list, each with the list's width.
pub open spec fn tagged(list: Seq<Seq<char>>, numeric: NumericType) -> Seq<Directive> {
    Seq::new(list.len(), |i: int| Directive { name: list[i], numeric })
}

/// All entries of the four lists in the order in which they are taken.
pub open spec fn directives(
    int32: Seq<Seq<char>>,
    int64: Seq<Seq<char>>,
    float32: Seq<Seq<char>>,
    float64: Seq<Seq<char>>,
) -> Seq<Directive> {
    tagged(int32, NumericType::Int32) + tagged(int64, NumericType::Int64) + tagged(
        float32,
        NumericType::Float32,
    ) + tagged(float64, NumericType::Float64)
}

/// Whether the entry at `p` names a column that an earlier entry has named
/// already, and is held to account for it: the entries of the first list, the
/// 32-bit integers, are exempt, and a repeated name among them is accepted.
pub open spec fn collides(ds: Seq<Directive>, p: int) -> bool {
    &&& 0 <= p < ds.len()
    &&& !is_wildcard(ds[p].name)
    &&& ds[p].numeric != NumericType::Int32
    &&& exists|q: int| 0 <= q < p && (#[trigger] ds[q]).name == ds[p].name
}

/// Whether some entry collides.
pub open spec fn has_collision(ds: Seq<Directive>) -> bool {
    exists|p: int| collides(ds, p)
}

/// Whether `p` is the first entry that collides.
pub open spec fn is_first_collision(ds: Seq<Directive>, p: int) -> bool {
    collides(ds, p) && forall|q: int| 0 <= q < p ==> !collides(ds, q)
}

/// The position of the first entry that collides, where one does.
pub open spec fn first_collision(ds: Seq<Directive>) -> int {
    choose|p: int| is_first_collision(ds, p)
}

/// Why a set of directives was turned down, in characters.
pub enum ConflictView {
    IntDefaultTwice,
    FloatDefaultTwice,
    Duplicate(Seq<char>),
}

/// Why a set of directives was turned down.
#[derive(Debug)]
pub enum ConfigConflict {
    /// Both integer lists hold a wildcard.
    IntDefaultTwice,
    /// Both float lists hold a wildcard.
    FloatDefaultTwice,
    /// The column was named a second time, in a list after the first.
    Duplicate(String),
}

impl View for ConfigConflict {
    type V = ConflictView;

    open spec fn view(&self) -> ConflictView {
        match self {
            ConfigConflict::IntDefaultTwice => ConflictView::IntDefaultTwice,
            ConfigConflict::FloatDefaultTwice => ConflictView::FloatDefaultTwice,
            ConfigConflict::Duplicate(name) => ConflictView::Duplicate(name@),
        }
    }
}

/// The conflict that the four lists hold, if they hold one. The two wildcard
/// rules are tried first, integers before floats, then the repeated names.
pub open spec fn conflict_of(
    int32: Seq<Seq<char>>,
    int64: Seq<Seq<char>>,
    float32: Seq<Seq<char>>,
    float64: Seq<Seq<char>>,
) -> Option<ConflictView> {
    let ds = directives(int32, int64, float32, float64);
    if has_wildcard(int32) && has_wildcard(int64) {
        Some(ConflictView::IntDefaultTwice)
    } else if has_wildcard(float32) && has_wildcard(float64) {
        Some(ConflictView::FloatDefaultTwice)
    } else if has_collision(ds) {
        Some(ConflictView::Duplicate(ds[first_collision(ds)].name))
    } else {
        None
    }
}

/// Whether `m` holds exactly the columns that the first `end` entries name,
/// each with the width of an entry that names it.
pub open spec fn records(m: Map<Seq<char>, NumericType>, ds: Seq<Directive>, end: int) -> bool {
    &&& forall|p: int|
        0 <= p < end && p < ds.len() && !is_wildcard((#[trigger] ds[p]).name) ==> m.contains_key(
            ds[p].name,
        ) && m[ds[p].name] == ds[p].numeric
    &&& forall|n: Seq<char>| #[trigger]
        m.contains_key(n) ==> !is_wildcard(n) && exists|p: int|
            0 <= p < end && p < ds.len() && (#[trigger] ds[p]).name == n
}

/// The width of integer columns where no directive says otherwise.
pub const DEFAULT_INT_TYPE: NumericType = NumericType::Int64;

/// The width of float columns where no directive says otherwise.
pub const DEFAULT_FLOAT_TYPE: NumericType = NumericType::Float32;

/// The width that integer columns get when no entry names them.
pub open spec fn default_int_of(int32: Seq<Seq<char>>) -> NumericType {
    if has_wildcard(int32) {
        NumericType::Int32
    } else {
        DEFAULT_INT_TYPE
    }
}

/// The width that float columns get when no entry names them.
pub open spec fn default_float_of(float64: Seq<Seq<char>>) -> NumericType {
    if has_wildcard(float64) {
        NumericType::Float64
    } else {
        DEFAULT_FLOAT_TYPE
    }
}

/// The four lists of a run. A list that was not given is `None`.
#[derive(Debug)]
pub struct TypeDirectives {
    pub int32: Option<Vec<String>>,
    pub int64: Option<Vec<String>>,
    pub float32: Option<Vec<String>>,
    pub float64: Option<Vec<String>>,
}

/// What the directives of a run come to.
#[derive(Debug)]
pub struct Consolidated {
    pub overrides: TypeOverrides,
    pub default_int: NumericType,
    pub default_float: NumericType,
}

/// Whether `name` is a wildcard.
pub fn names_wildcard(name: &String) -> (b: bool)
    ensures
        b == is_wildcard(name@),
{
    let star = "*".to_owned();
    let all = "__all__".to_owned();
    *name == star || *name == all
}

/// Whether the list holds a wildcard.
pub fn contains_wildcard(list: &Vec<String>) -> (b: bool)
    ensures
        b == has_wildcard(names_of(list@)),
{
    let mut i: usize = 0;
    while i < list.len()
        invariant
            i <= list@.len(),
            forall|k: int| 0 <= k < i ==> !is_wildcard(#[trigger] names_of(list@)[k]),
        decreases list@.len() - i,
    {
        if names_wildcard(&list[i]) {
            assert(is_wildcard(names_of(list@)[i as int]));
            return true;
        }
        i += 1;
    }
    false
}

/// Whether the list is given and holds a wildcard.
fn sets_default(list: &Option<Vec<String>>) -> (b: bool)
    ensures
        b == has_wildcard(listed(*list)),
{
    match list {
        Some(v) => contains_wildcard(v),
        None => false,
    }
}

/// An entry collides in a list exactly if it collides in each longer list that
/// begins with that list.
pub proof fn lemma_collides_in_prefix(prefix: Seq<Directive>, rest: Seq<Directive>, p: int)
    requires
        0 <= p < prefix.len(),
    ensures
        collides(prefix + rest, p) == collides(prefix, p),
{
    let full = prefix + rest;
    assert(full[p] == prefix[p]);
    if collides(prefix, p) {
        let q = choose|q: int| 0 <= q < p && (#[trigger] prefix[q]).name == prefix[p].name;
        assert(full[q].name == full[p].name);
    }
    if collides(full, p) {
        let q = choose|q: int| 0 <= q < p && (#[trigger] full[q]).name == full[p].name;
        assert(prefix[q].name == prefix[p].name);
    }
}

/// The first collision of a list is the first collision of each longer list
/// that begins with that list.
pub proof fn lemma_first_collision_in_prefix(prefix: Seq<Directive>, rest: Seq<Directive>, p: int)
    requires
        is_first_collision(prefix, p),
    ensures
        is_first_collision(prefix + rest, p),
        (prefix + rest)[p].name == prefix[p].name,
{
    lemma_collides_in_prefix(prefix, rest, p);
    assert forall|q: int| 0 <= q < p implies !collides(prefix + rest, q) by {
        lemma_collides_in_prefix(prefix, rest, q);
    }
}

/// A list has one first collision at most.
pub proof fn lemma_first_collision_unique(ds: Seq<Directive>, p: int)
    requires
        is_first_collision(ds, p),
    ensures
        has_collision(ds),
        first_collision(ds) == p,
{
    let c = first_collision(ds);
    assert(is_first_collision(ds, c));
    if c < p {
        assert(!collides(ds, c));
    }
    if p < c {
        assert(!collides(ds, p));
    }
}

/// A list without a collision leaves each list that it begins without one among
/// the entries they share.
proof fn lemma_no_collision_carries(prefix: Seq<Directive>, rest: Seq<Directive>)
    requires
        !has_collision(prefix),
    ensures
        forall|p: int| 0 <= p < prefix.len() ==> !collides(prefix + rest, p),
{
    assert forall|p: int| 0 <= p < prefix.len() implies !collides(prefix + rest, p) by {
        lemma_collides_in_prefix(prefix, rest, p);
    }
}

/// Takes the entries of one list into the map. Stops at the first entry that
/// collides and returns its name.
fn absorb(
    list: &Vec<String>,
    numeric: NumericType,
    overrides: &mut TypeOverrides,
    Ghost(before): Ghost<Seq<Directive>>,
) -> (r: Result<(), String>)
    requires
        old(overrides).wf(),
        records(old(overrides)@, before, before.len() as int),
        !has_collision(before),
        numeric == NumericType::Int32 ==> forall|p: int|
            0 <= p < before.len() ==> (#[trigger] before[p]).numeric == NumericType::Int32,
    ensures
        final(overrides).wf(),
        ({
            let ds = before + tagged(names_of(list@), numeric);
            match r {
                Ok(()) => records(final(overrides)@, ds, ds.len() as int) && !has_collision(ds),
                Err(name) => exists|p: int| is_first_collision(ds, p) && name@ == ds[p].name,
            }
        }),
{
    let ghost ds = before + tagged(names_of(list@), numeric);
    let ghost base = before.len() as int;
    proof {
        lemma_no_collision_carries(before, tagged(names_of(list@), numeric));
        assert forall|p: int| 0 <= p < base implies ds[p] == before[p] by {}
        assert(records(overrides@, ds, base)) by {
            assert forall|p: int|
                0 <= p < base && p < ds.len() && !is_wildcard((#[trigger] ds[p]).name) implies overrides@.contains_key(
                ds[p].name,
            ) && overrides@[ds[p].name] == ds[p].numeric by {
                assert(ds[p] == before[p]);
            }
            assert forall|n: Seq<char>| #[trigger] overrides@.contains_key(n) implies !is_wildcard(n)
                && exists|p: int| 0 <= p < base && p < ds.len() && (#[trigger] ds[p]).name == n by {
                let p = choose|p: int|
                    0 <= p < before.len() && p < before.len() && (#[trigger] before[p]).name == n;
                assert(ds[p].name == n);
            }
        }
    }
    let mut i: usize = 0;
    while i < list.len()
        invariant
            i <= list@.len(),
            overrides.wf(),
            base == before.len(),
            ds == before + tagged(names_of(list@), numeric),
            ds.len() == base + list@.len(),
            records(overrides@, ds, base + i),
            forall|p: int| 0 <= p < base + i ==> !collides(ds, p),
            numeric == NumericType::Int32 ==> forall|p: int|
                0 <= p < ds.len() ==> (#[trigger] ds[p]).numeric == NumericType::Int32,
        decreases list@.len() - i,
    {
        let ghost at = base + i;
        let ghost held = overrides@;
        assert(ds[at] == (Directive { name: list@[i as int]@, numeric }));
        if names_wildcard(&list[i]) {
            assert(!collides(ds, at));
        } else {
            let strict = match numeric {
                NumericType::Int32 => false,
                _ => true,
            };
            if strict && overrides.contains(list[i].as_str()) {
                proof {
                    let q = choose|q: int|
                        0 <= q < at && q < ds.len() && (#[trigger] ds[q]).name == ds[at].name;
                    assert(ds[q].name == ds[at].name);
                    assert(collides(ds, at));
                    assert(is_first_collision(ds, at));
                }
                return Err(list[i].clone());
            }
            overrides.insert(list[i].clone(), numeric);
            proof {
                let now = overrides@;
                assert(now == held.insert(ds[at].name, numeric));
                if strict {
                    assert(!collides(ds, at)) by {
                        if collides(ds, at) {
                            let q = choose|q: int| 0 <= q < at && (#[trigger] ds[q]).name == ds[at].name;
                            assert(held.contains_key(ds[q].name));
                        }
                    }
                } else {
                    assert(!collides(ds, at));
                }
                assert forall|p: int|
                    0 <= p < at + 1 && p < ds.len() && !is_wildcard((#[trigger] ds[p]).name) implies now.contains_key(
                    ds[p].name,
                ) && now[ds[p].name] == ds[p].numeric by {
                    if p < at && ds[p].name == ds[at].name {
                        if strict {
                            assert(held.contains_key(ds[p].name));
                        } else {
                            assert(ds[p].numeric == NumericType::Int32);
                        }
                    }
                }
                assert forall|n: Seq<char>| #[trigger] now.contains_key(n) implies !is_wildcard(n)
                    && exists|p: int| 0 <= p < at + 1 && p < ds.len() && (#[trigger] ds[p]).name == n by {
                    if n == ds[at].name {
                        assert(ds[at].name == n);
                    } else {
                        assert(held.contains_key(n));
                        let p = choose|p: int| 0 <= p < at && p < ds.len() && (#[trigger] ds[p]).name == n;
                        assert(ds[p].name == n);
                    }
                }
            }
        }
        i += 1;
    }
    proof {
        assert(!has_collision(ds)) by {
            if has_collision(ds) {
                let p = choose|p: int| collides(ds, p);
                assert(0 <= p < base + i);
            }
        }
    }
    Ok(())
}

/// The entries of a list that may be absent, taken into the map as `absorb`
/// takes them.
fn absorb_listed(
    list: &Option<Vec<String>>,
    numeric: NumericType,
    overrides: &mut TypeOverrides,
    Ghost(before): Ghost<Seq<Directive>>,
) -> (r: Result<(), String>)
    requires
        old(overrides).wf(),
        records(old(overrides)@, before, before.len() as int),
        !has_collision(before),
        numeric == NumericType::Int32 ==> forall|p: int|
            0 <= p < before.len() ==> (#[trigger] before[p]).numeric == NumericType::Int32,
    ensures
        final(overrides).wf(),
        ({
            let ds = before + tagged(listed(*list), numeric);
            match r {
                Ok(()) => records(final(overrides)@, ds, ds.len() as int) && !has_collision(ds),
                Err(name) => exists|p: int| is_first_collision(ds, p) && name@ == ds[p].name,
            }
        }),
{
    match list {
        Some(v) => absorb(v, numeric, overrides, Ghost(before)),
        None => {
            assert(before + tagged(listed(*list), numeric) =~= before);
            Ok(())
        },
    }
}

/// Reconciles the four lists of a run.
///
/// The lists are turned down when both integer lists hold a wildcard, when both
/// float lists hold one, or when an entry after the first list names a column
/// that an earlier entry has named; the error is the first of these that
/// applies, and of several repeated names the one that comes first. Otherwise
/// the result maps each named column to the width of its list, and gives the
/// two default widths: 64-bit integers unless the 32-bit list holds a wildcard,
/// 32-bit floats unless the 64-bit list holds one.
pub fn consolidate_types(directives: &TypeDirectives) -> (r: Result<Consolidated, ConfigConflict>)
    ensures
        ({
            let int32 = listed(directives.int32);
            let int64 = listed(directives.int64);
            let float32 = listed(directives.float32);
            let float64 = listed(directives.float64);
            let ds = self::directives(int32, int64, float32, float64);
            match r {
                Ok(c) => {
                    &&& conflict_of(int32, int64, float32, float64) is None
                    &&& c.overrides.wf()
                    &&& records(c.overrides@, ds, ds.len() as int)
                    &&& c.default_int == default_int_of(int32)
                    &&& c.default_float == default_float_of(float64)
                },
                Err(e) => conflict_of(int32, int64, float32, float64) == Some(e@),
            }
        }),
{
    let ghost int32 = tagged(listed(directives.int32), NumericType::Int32);
    let ghost int64 = tagged(listed(directives.int64), NumericType::Int64);
    let ghost float32 = tagged(listed(directives.float32), NumericType::Float32);
    let ghost float64 = tagged(listed(directives.float64), NumericType::Float64);
    let ghost none = Seq::<Directive>::empty();
    let ghost ds = int32 + int64 + float32 + float64;

    if directives.int32.is_none() && directives.int64.is_none() && directives.float32.is_none()
        && directives.float64.is_none() {
        assert(ds =~= none);
        return Ok(
            Consolidated {
                overrides: TypeOverrides::new(),
                default_int: DEFAULT_INT_TYPE,
                default_float: DEFAULT_FLOAT_TYPE,
            },
        );
    }
    let int32_wild = sets_default(&directives.int32);
    let float64_wild = sets_default(&directives.float64);
    if int32_wild && sets_default(&directives.int64) {
        return Err(ConfigConflict::IntDefaultTwice);
    }
    if float64_wild && sets_default(&directives.float32) {
        return Err(ConfigConflict::FloatDefaultTwice);
    }
    let mut overrides = TypeOverrides::new();
    assert(none + int32 =~= int32);
    match absorb_listed(&directives.int32, NumericType::Int32, &mut overrides, Ghost(none)) {
        Ok(()) => {},
        Err(name) => {
            proof {
                let p = choose|p: int| is_first_collision(int32, p) && name@ == int32[p].name;
                lemma_first_collision_in_prefix(int32, int64 + float32 + float64, p);
                assert(int32 + (int64 + float32 + float64) =~= ds);
                lemma_first_collision_unique(ds, p);
            }
            return Err(ConfigConflict::Duplicate(name));
        },
    }
    match absorb_listed(&directives.int64, NumericType::Int64, &mut overrides, Ghost(int32)) {
        Ok(()) => {},
        Err(name) => {
            proof {
                let upto = int32 + int64;
                let p = choose|p: int| is_first_collision(upto, p) && name@ == upto[p].name;
                lemma_first_collision_in_prefix(upto, float32 + float64, p);
                assert(upto + (float32 + float64) =~= ds);
                lemma_first_collision_unique(ds, p);
            }
            return Err(ConfigConflict::Duplicate(name));
        },
    }
    match absorb_listed(
        &directives.float32,
        NumericType::Float32,
        &mut overrides,
        Ghost(int32 + int64),
    ) {
        Ok(()) => {},
        Err(name) => {
            proof {
                let upto = int32 + int64 + float32;
                let p = choose|p: int| is_first_collision(upto, p) && name@ == upto[p].name;
                lemma_first_collision_in_prefix(upto, float64, p);
                lemma_first_collision_unique(ds, p);
            }
            return Err(ConfigConflict::Duplicate(name));
        },
    }
    match absorb_listed(
        &directives.float64,
        NumericType::Float64,
        &mut overrides,
        Ghost(int32 + int64 + float32),
    ) {
        Ok(()) => {},
        Err(name) => {
            proof {
                let p = choose|p: int| is_first_collision(ds, p) && name@ == ds[p].name;
                lemma_first_collision_unique(ds, p);
            }
            return Err(ConfigConflict::Duplicate(name));
        },
    }
    let default_int = if int32_wild {
        NumericType::Int32
    } else {
        DEFAULT_INT_TYPE
    };
    let default_float = if float64_wild {
        NumericType::Float64
    } else {
        DEFAULT_FLOAT_TYPE
    };
    Ok(Consolidated { overrides, default_int, default_float })
}

/// Where every entry names a column, and no column is named twice, the
/// directives are accepted, and a map that records them holds exactly the
/// named columns, each with the width of the list that names it.
pub proof fn lemma_distinct_names_accepted(
    int32: Seq<Seq<char>>,
    int64: Seq<Seq<char>>,
    float32: Seq<Seq<char>>,
    float64: Seq<Seq<char>>,
    m: Map<Seq<char>, NumericType>,
)
    requires
        forall|p: int|
            0 <= p < directives(int32, int64, float32, float64).len() ==> !is_wildcard(
                (#[trigger] directives(int32, int64, float32, float64)[p]).name,
            ),
        forall|p: int, q: int|
            0 <= p < q < directives(int32, int64, float32, float64).len() ==> (
            #[trigger] directives(int32, int64, float32, float64)[p]).name != (
            #[trigger] directives(int32, int64, float32, float64)[q]).name,
        records(
            m,
            directives(int32, int64, float32, float64),
            directives(int32, int64, float32, float64).len() as int,
        ),
    ensures
        conflict_of(int32, int64, float32, float64) is None,
        forall|n: Seq<char>|
            m.contains_key(n) <==> exists|p: int|
                0 <= p < directives(int32, int64, float32, float64).len() && (
                #[trigger] directives(int32, int64, float32, float64)[p]).name == n,
        forall|p: int|
            0 <= p < directives(int32, int64, float32, float64).len() ==> m[(
            #[trigger] directives(int32, int64, float32, float64)[p]).name] == directives(
                int32,
                int64,
                float32,
                float64,
            )[p].numeric,
{
    let ds = directives(int32, int64, float32, float64);
    if has_wildcard(int32) {
        let i = choose|i: int| 0 <= i < int32.len() && is_wildcard(#[trigger] int32[i]);
        assert(ds[i].name == int32[i]);
    }
    if has_wildcard(float64) {
        let i = choose|i: int| 0 <= i < float64.len() && is_wildcard(#[trigger] float64[i]);
        let at = int32.len() + int64.len() + float32.len() + i;
        assert(ds[at].name == float64[i]);
    }
    if has_collision(ds) {
        let p = choose|p: int| collides(ds, p);
        let q = choose|q: int| 0 <= q < p && (#[trigger] ds[q]).name == ds[p].name;
        assert(ds[q].name != ds[p].name);
    }
    assert forall|n: Seq<char>|
        (exists|p: int| 0 <= p < ds.len() && (#[trigger] ds[p]).name == n) implies m.contains_key(
        n,
    ) by {
        let p = choose|p: int| 0 <= p < ds.len() && (#[trigger] ds[p]).name == n;
        assert(!is_wildcard(ds[p].name));
    }
}

/// A wildcard in both integer lists is turned down, whatever else the lists
/// hold.
pub proof fn lemma_int_default_twice(
    int32: Seq<Seq<char>>,
    int64: Seq<Seq<char>>,
    float32: Seq<Seq<char>>,
    float64: Seq<Seq<char>>,
)
    requires
        has_wildcard(int32),
        has_wildcard(int64),
    ensures
        conflict_of(int32, int64, float32, float64) == Some(ConflictView::IntDefaultTwice),
{
}

/// A wildcard in both float lists is turned down, whatever else the lists hold:
/// for the floats, unless the integer lists are at fault already.
pub proof fn lemma_float_default_twice(
    int32: Seq<Seq<char>>,
    int64: Seq<Seq<char>>,
    float32: Seq<Seq<char>>,
    float64: Seq<Seq<char>>,
)
    requires
        has_wildcard(float32),
        has_wildcard(float64),
    ensures
        conflict_of(int32, int64, float32, float64) == Some(
            if has_wildcard(int32) && has_wildcard(int64) {
                ConflictView::IntDefaultTwice
            } else {
                ConflictView::FloatDefaultTwice
            },
        ),
{
}

/// A column that the 32-bit and the 64-bit integer list both name is turned
/// down.
pub proof fn lemma_named_in_both_int_lists(
    int32: Seq<Seq<char>>,
    int64: Seq<Seq<char>>,
    float32: Seq<Seq<char>>,
    float64: Seq<Seq<char>>,
    i: int,
    j: int,
)
    requires
        0 <= i < int32.len(),
        0 <= j < int64.len(),
        int32[i] == int64[j],
        !is_wildcard(int32[i]),
    ensures
        conflict_of(int32, int64, float32, float64) is Some,
{
    let ds = directives(int32, int64, float32, float64);
    let at = int32.len() + j;
    assert(ds[i].name == int32[i]);
    assert(ds[at].name == int64[j]);
    assert(ds[at].numeric == NumericType::Int64);
    assert(collides(ds, at));
}

/// No entry of the first list collides, so a name repeated in it is accepted:
/// with nothing in the other lists there is no conflict.
pub proof fn lemma_first_list_exempt(
    int32: Seq<Seq<char>>,
    int64: Seq<Seq<char>>,
    float32: Seq<Seq<char>>,
    float64: Seq<Seq<char>>,
)
    ensures
        forall|p: int|
            0 <= p < int32.len() ==> !collides(directives(int32, int64, float32, float64), p),
        int64.len() == 0 && float32.len() == 0 && float64.len() == 0 ==> conflict_of(
            int32,
            int64,
            float32,
            float64,
        ) is None,
{
    let ds = directives(int32, int64, float32, float64);
    assert forall|p: int| 0 <= p < int32.len() implies !collides(ds, p) by {
        assert(ds[p].numeric == NumericType::Int32);
    }
    if int64.len() == 0 && float32.len() == 0 && float64.len() == 0 {
        assert(!has_wildcard(int64));
        assert(!has_wildcard(float64));
        assert(ds.len() == int32.len());
    }
}

impl ConfigConflict {
    /// The conflict in words.
    pub fn message(&self) -> (text: String)
        ensures
            text@ == message_of(self@),
    {
        match self {
            ConfigConflict::IntDefaultTwice => {
                "i32 and i64 can't both be the default data types for integers".to_owned()
            },
            ConfigConflict::FloatDefaultTwice => {
                "f32 and f64 can't both be the default data types for floats".to_owned()
            },
            ConfigConflict::Duplicate(name) => {
                let text = "Data type for column `".to_owned();
                let text = text.concat(name.as_str());
                text.concat("' was specified multiple times")
            },
        }
    }
}

/// A conflict in words.
pub open spec fn message_of(conflict: ConflictView) -> Seq<char> {
    match conflict {
        ConflictView::IntDefaultTwice => {
            "i32 and i64 can't both be the default data types for integers"@
        },
        ConflictView::FloatDefaultTwice => {
            "f32 and f64 can't both be the default data types for floats"@
        },
        ConflictView::Duplicate(name) => "Data type for column `"@ + name
            + "' was specified multiple times"@,
    }
}

} // verus!
