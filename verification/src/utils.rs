//! Small helpers: a value that is owned or borrowed, and folds and maps
//! that stop at the first error.

use vstd::prelude::*;

verus! {

/// A value that is either owned or borrowed.
pub enum MaybeRef<'a, T> {
    Owned(T),
    Ref(&'a T),
}

impl<'a, T> MaybeRef<'a, T> {
    /// The value, whichever way it is held.
    pub open spec fn value(self) -> T {
        match self {
            MaybeRef::Owned(t) => t,
            MaybeRef::Ref(t) => *t,
        }
    }

    /// A reference to the value, whichever way it is held.
    pub fn get(&self) -> (r: &T)
        ensures
            *r == self.value(),
    {
        match self {
            MaybeRef::Owned(t) => t,
            MaybeRef::Ref(t) => *t,
        }
    }
}

/// Whether `func` may have given `states`, one after the other, when
/// folding the first `n` items of `list` into `states[0]`.
pub open spec fn folds<A, B, E, F: FnMut(&B, A) -> Result<B, E>>(
    func: F,
    list: Seq<A>,
    states: Seq<B>,
    n: int,
) -> bool {
    &&& states.len() == n + 1
    &&& forall|i: int|
        0 <= i < n ==> call_ensures(func, (&states[i], list[i]), Ok::<B, E>(#[trigger] states[i + 1]))
}

/// Whether `func` may have given `states`, one after the other, when
/// folding the first `n` items of `list` into `states[0]`, by reference.
pub open spec fn folds_ref<'a, A: 'a, B: 'a, E, F: FnMut(&'a B, &'a A) -> Result<&'a B, E>>(
    func: F,
    list: Seq<A>,
    states: Seq<&'a B>,
    n: int,
) -> bool {
    &&& states.len() == n + 1
    &&& forall|i: int|
        0 <= i < n ==> call_ensures(
            func,
            (states[i], &list[i]),
            Ok::<&'a B, E>(#[trigger] states[i + 1]),
        )
}

/// Folds `list` into `start` with `func`, from the left, up to the first
/// error. `func` must accept each state that the fold can reach with the
/// item that follows it.
#[verifier::loop_isolation(false)]
pub fn fold_m<'a, A, B, E>(
    start: &'a B,
    list: &'a Vec<A>,
    mut func: impl FnMut(&'a B, &'a A) -> Result<&'a B, E>,
) -> (r: Result<&'a B, E>)
    requires
        forall|states: Seq<&'a B>, n: int|
            0 <= n < list.len() && #[trigger] folds_ref(func, list@, states, n) && states[0]
                == start ==> call_requires(func, (states[n], &list[n])),
    ensures
        match r {
            Ok(last) => exists|states: Seq<&'a B>|
                #![auto]
                folds_ref(func, list@, states, list.len() as int) && states[0] == start
                    && states[list.len() as int] == last,
            Err(e) => exists|states: Seq<&'a B>, n: int|
                #![auto]
                0 <= n < list.len() && folds_ref(func, list@, states, n) && states[0] == start
                    && call_ensures(func, (states[n], &list[n]), Err::<&'a B, E>(e)),
        },
{
    let ghost f0 = func;
    let mut current: &'a B = start;
    let ghost mut states: Seq<&'a B> = seq![start];
    let mut i: usize = 0;
    while i < list.len()
        invariant
            i <= list.len(),
            func == f0,
            forall|states: Seq<&'a B>, n: int|
                0 <= n < list.len() && #[trigger] folds_ref(func, list@, states, n) && states[0]
                    == start ==> call_requires(func, (states[n], &list[n])),
            folds_ref(func, list@, states, i as int),
            states[0] == start,
            states[i as int] == current,
        decreases list.len() - i,
    {
        match func(current, &list[i]) {
            Err(e) => {
                proof {
                    let n = i as int;
                    assert(0 <= n < list.len() && folds_ref(func, list@, states, n) && states[0]
                        == start && call_ensures(func, (states[n], &list[n]), Err::<&'a B, E>(e)));
                }
                return Err(e);
            },
            Ok(next) => {
                proof {
                    states = states.push(next);
                }
                current = next;
            },
        }
        i += 1;
    }
    Ok(current)
}

/// Folds `list` into `start` with `func`, from the left, up to the first
/// error. `func` must accept each state that the fold can reach with the
/// item that follows it.
#[verifier::loop_isolation(false)]
pub fn fold_m_mut<A, B, E>(start: B, list: Vec<A>, mut func: impl FnMut(&B, A) -> Result<B, E>) -> (r:
    Result<B, E>)
    requires
        forall|states: Seq<B>, n: int|
            0 <= n < list.len() && #[trigger] folds(func, list@, states, n) && states[0] == start
                ==> call_requires(func, (&states[n], list[n])),
    ensures
        match r {
            Ok(last) => exists|states: Seq<B>|
                #![auto]
                folds(func, list@, states, list.len() as int) && states[0] == start
                    && states[list.len() as int] == last,
            Err(e) => exists|states: Seq<B>, n: int|
                #![auto]
                0 <= n < list.len() && folds(func, list@, states, n) && states[0] == start
                    && call_ensures(func, (&states[n], list[n]), Err::<B, E>(e)),
        },
{
    let ghost f0 = func;
    let total: usize = list.len();
    let mut current: B = start;
    let ghost mut states: Seq<B> = seq![start];
    let ghost items = list@;
    let mut i: usize = 0;
    for aa in it: list
        invariant
            i == it.index(),
            it.seq() == items,
            items.len() == total,
            func == f0,
            forall|states: Seq<B>, n: int|
                0 <= n < items.len() && #[trigger] folds(func, items, states, n) && states[0]
                    == start ==> call_requires(func, (&states[n], items[n])),
            folds(func, items, states, i as int),
            states[0] == start,
            states[i as int] == current,
    {
        match func(&current, aa) {
            Err(e) => {
                proof {
                    let n = i as int;
                    assert(0 <= n < items.len() && folds(func, items, states, n) && states[0]
                        == start && call_ensures(func, (&states[n], items[n]), Err::<B, E>(e)));
                }
                return Err(e);
            },
            Ok(next) => {
                proof {
                    states = states.push(next);
                }
                current = next;
            },
        }
        i += 1;
    }
    Ok(current)
}

/// Whether `func` may have given the first `n` of `out` for the first
/// `n` of `list`, each with its index.
pub open spec fn maps_indexed<A, B, E, F: FnMut(usize, A) -> Result<B, E>>(
    func: F,
    list: Seq<A>,
    out: Seq<B>,
    n: int,
) -> bool {
    &&& out.len() == n
    &&& forall|i: int|
        0 <= i < n ==> call_ensures(func, (i as usize, list[i]), Ok::<B, E>(#[trigger] out[i]))
}

/// Whether `func` may have given the first `n` of `out` for the first
/// `n` of `list`.
pub open spec fn maps<A, B, E, F: FnMut(A) -> Result<B, E>>(
    func: F,
    list: Seq<A>,
    out: Seq<B>,
    n: int,
) -> bool {
    &&& out.len() == n
    &&& forall|i: int| 0 <= i < n ==> call_ensures(func, (list[i],), Ok::<B, E>(#[trigger] out[i]))
}

/// Applies `func` to each item of `list` with its index, in order, up to
/// the first error.
#[verifier::loop_isolation(false)]
pub fn map_m_mut_index<A, B, E>(list: Vec<A>, mut func: impl FnMut(usize, A) -> Result<B, E>) -> (r:
    Result<Vec<B>, E>)
    requires
        forall|i: int| 0 <= i < list.len() ==> call_requires(func, (i as usize, list[i])),
    ensures
        match r {
            Ok(out) => maps_indexed(func, list@, out@, list.len() as int),
            Err(e) => exists|out: Seq<B>, n: int|
                #![auto]
                0 <= n < list.len() && maps_indexed(func, list@, out, n) && call_ensures(
                    func,
                    (n as usize, list[n]),
                    Err::<B, E>(e),
                ),
        },
{
    let ghost f0 = func;
    let total: usize = list.len();
    let mut out: Vec<B> = Vec::new();
    let ghost items = list@;
    let mut i: usize = 0;
    for aa in it: list
        invariant
            i == it.index(),
            it.seq() == items,
            items.len() == total,
            func == f0,
            forall|i: int| 0 <= i < items.len() ==> call_requires(func, (i as usize, items[i])),
            maps_indexed(func, items, out@, i as int),
    {
        match func(i, aa) {
            Err(e) => {
                proof {
                    let n = i as int;
                    let found = out@;
                    assert(0 <= n < items.len() && maps_indexed(func, items, found, n)
                        && call_ensures(func, (n as usize, items[n]), Err::<B, E>(e)));
                }
                return Err(e);
            },
            Ok(b) => {
                out.push(b);
            },
        }
        i += 1;
    }
    Ok(out)
}

/// Applies `func` to each item of `list`, in order, up to the first
/// error.
#[verifier::loop_isolation(false)]
pub fn map_m_mut<A, B, E>(list: Vec<A>, mut func: impl FnMut(A) -> Result<B, E>) -> (r: Result<
    Vec<B>,
    E,
>)
    requires
        forall|i: int| 0 <= i < list.len() ==> call_requires(func, (list[i],)),
    ensures
        match r {
            Ok(out) => maps(func, list@, out@, list.len() as int),
            Err(e) => exists|out: Seq<B>, n: int|
                #![auto]
                0 <= n < list.len() && maps(func, list@, out, n) && call_ensures(
                    func,
                    (list[n],),
                    Err::<B, E>(e),
                ),
        },
{
    let ghost f0 = func;
    let total: usize = list.len();
    let mut out: Vec<B> = Vec::new();
    let ghost items = list@;
    let mut i: usize = 0;
    for aa in it: list
        invariant
            i == it.index(),
            it.seq() == items,
            items.len() == total,
            func == f0,
            forall|i: int| 0 <= i < items.len() ==> call_requires(func, (items[i],)),
            maps(func, items, out@, i as int),
    {
        match func(aa) {
            Err(e) => {
                proof {
                    let n = i as int;
                    let found = out@;
                    assert(0 <= n < items.len() && maps(func, items, found, n) && call_ensures(
                        func,
                        (items[n],),
                        Err::<B, E>(e),
                    ));
                }
                return Err(e);
            },
            Ok(b) => {
                out.push(b);
            },
        }
        i += 1;
    }
    Ok(out)
}

/// Applies `func` to each item of `list`, in order, up to the first
/// error.
pub fn map_m<A, B, E>(list: Vec<A>, func: impl FnMut(A) -> Result<B, E>) -> (r: Result<Vec<B>, E>)
    requires
        forall|i: int| 0 <= i < list.len() ==> call_requires(func, (list[i],)),
    ensures
        match r {
            Ok(out) => maps(func, list@, out@, list.len() as int),
            Err(e) => exists|out: Seq<B>, n: int|
                #![auto]
                0 <= n < list.len() && maps(func, list@, out, n) && call_ensures(
                    func,
                    (list[n],),
                    Err::<B, E>(e),
                ),
        },
{
    map_m_mut(list, func)
}

/// Applies `func` to each item of `list` with its index, in order, up to
/// the first error.
pub fn map_m_index<A, B, E>(list: Vec<A>, func: impl FnMut(usize, A) -> Result<B, E>) -> (r: Result<
    Vec<B>,
    E,
>)
    requires
        forall|i: int| 0 <= i < list.len() ==> call_requires(func, (i as usize, list[i])),
    ensures
        match r {
            Ok(out) => maps_indexed(func, list@, out@, list.len() as int),
            Err(e) => exists|out: Seq<B>, n: int|
                #![auto]
                0 <= n < list.len() && maps_indexed(func, list@, out, n) && call_ensures(
                    func,
                    (n as usize, list[n]),
                    Err::<B, E>(e),
                ),
        },
{
    map_m_mut_index(list, func)
}

/// Whether `func` may have given the first `n` of `out` for references
/// to the first `n` of `list`, each with its index.
pub open spec fn maps_ref_indexed<'a, A: 'a, B, E, F: FnMut(usize, &'a A) -> Result<B, E>>(
    func: F,
    list: Seq<A>,
    out: Seq<B>,
    n: int,
) -> bool {
    &&& out.len() == n
    &&& forall|i: int|
        0 <= i < n ==> call_ensures(func, (i as usize, &list[i]), Ok::<B, E>(#[trigger] out[i]))
}

/// Whether `func` may have given the first `n` of `out` for references
/// to the first `n` of `list`.
pub open spec fn maps_ref<'a, A: 'a, B, E, F: FnMut(&'a A) -> Result<B, E>>(
    func: F,
    list: Seq<A>,
    out: Seq<B>,
    n: int,
) -> bool {
    &&& out.len() == n
    &&& forall|i: int| 0 <= i < n ==> call_ensures(func, (&list[i],), Ok::<B, E>(#[trigger] out[i]))
}

/// Applies `func` to a reference to each item of `list` with its index,
/// in order, up to the first error.
#[verifier::loop_isolation(false)]
pub fn map_m_ref_index<'a, A, B, E>(
    list: &'a Vec<A>,
    mut func: impl FnMut(usize, &'a A) -> Result<B, E>,
) -> (r: Result<Vec<B>, E>)
    requires
        forall|i: int| 0 <= i < list.len() ==> call_requires(func, (i as usize, &list[i])),
    ensures
        match r {
            Ok(out) => maps_ref_indexed(func, list@, out@, list.len() as int),
            Err(e) => exists|out: Seq<B>, n: int|
                #![auto]
                0 <= n < list.len() && maps_ref_indexed(func, list@, out, n) && call_ensures(
                    func,
                    (n as usize, &list[n]),
                    Err::<B, E>(e),
                ),
        },
{
    let ghost f0 = func;
    let mut out: Vec<B> = Vec::new();
    let mut i: usize = 0;
    while i < list.len()
        invariant
            i <= list.len(),
            func == f0,
            forall|i: int| 0 <= i < list.len() ==> call_requires(func, (i as usize, &list[i])),
            maps_ref_indexed(func, list@, out@, i as int),
        decreases list.len() - i,
    {
        match func(i, &list[i]) {
            Err(e) => {
                proof {
                    let n = i as int;
                    let found = out@;
                    assert(0 <= n < list.len() && maps_ref_indexed(func, list@, found, n)
                        && call_ensures(func, (n as usize, &list[n]), Err::<B, E>(e)));
                }
                return Err(e);
            },
            Ok(b) => {
                out.push(b);
            },
        }
        i += 1;
    }
    Ok(out)
}

/// Applies `func` to a reference to each item of `list`, in order, up to
/// the first error.
#[verifier::loop_isolation(false)]
pub fn map_m_ref<'a, A, B, E>(list: &'a Vec<A>, mut func: impl FnMut(&'a A) -> Result<B, E>) -> (r:
    Result<Vec<B>, E>)
    requires
        forall|i: int| 0 <= i < list.len() ==> call_requires(func, (&list[i],)),
    ensures
        match r {
            Ok(out) => maps_ref(func, list@, out@, list.len() as int),
            Err(e) => exists|out: Seq<B>, n: int|
                #![auto]
                0 <= n < list.len() && maps_ref(func, list@, out, n) && call_ensures(
                    func,
                    (&list[n],),
                    Err::<B, E>(e),
                ),
        },
{
    let ghost f0 = func;
    let mut out: Vec<B> = Vec::new();
    let mut i: usize = 0;
    while i < list.len()
        invariant
            i <= list.len(),
            func == f0,
            forall|i: int| 0 <= i < list.len() ==> call_requires(func, (&list[i],)),
            maps_ref(func, list@, out@, i as int),
        decreases list.len() - i,
    {
        match func(&list[i]) {
            Err(e) => {
                proof {
                    let n = i as int;
                    let found = out@;
                    assert(0 <= n < list.len() && maps_ref(func, list@, found, n) && call_ensures(
                        func,
                        (&list[n],),
                        Err::<B, E>(e),
                    ));
                }
                return Err(e);
            },
            Ok(b) => {
                out.push(b);
            },
        }
        i += 1;
    }
    Ok(out)
}

/// Applies `func` to each item of `list`, in order.
#[verifier::loop_isolation(false)]
pub fn map_mut<A, B>(list: Vec<A>, mut func: impl FnMut(A) -> B) -> (r: Vec<B>)
    requires
        forall|i: int| 0 <= i < list.len() ==> call_requires(func, (list[i],)),
    ensures
        r.len() == list.len(),
        forall|i: int| 0 <= i < list.len() ==> call_ensures(func, (list[i],), #[trigger] r[i]),
{
    let ghost f0 = func;
    let total: usize = list.len();
    let mut entries: Vec<B> = Vec::new();
    let ghost items = list@;
    let mut i: usize = 0;
    for ii in it: list
        invariant
            i == it.index(),
            it.seq() == items,
            items.len() == total,
            func == f0,
            entries.len() == i,
            forall|i: int| 0 <= i < items.len() ==> call_requires(func, (items[i],)),
            forall|j: int| 0 <= j < i ==> call_ensures(func, (items[j],), #[trigger] entries[j]),
    {
        entries.push(func(ii));
        i += 1;
    }
    entries
}

} // verus!
