//! Named hooks with filters that transform a value in turn.

use crate::text::text_equals;
use vstd::prelude::*;
use vstd::string::*;

verus! {

/// Filters, each under the name of its hook, in the order in which they
/// were added.
pub struct FilterRegistry<F> {
    pub hooks: Vec<String>,
    pub filters: Vec<F>,
}

/// What one filter, added under the name `owner`, makes of `value` when
/// `hook` is applied: a result of the call if the names agree, else the
/// value itself.
pub open spec fn passed<T, F: Fn(T) -> T>(
    owner: Seq<char>,
    hook: Seq<char>,
    filter: F,
    value: T,
    result: T,
) -> bool {
    if owner == hook {
        call_ensures(filter, (value,), result)
    } else {
        result == value
    }
}

/// Whether `result` is what the first `upto` filters can make of `value`
/// under `hook`: each filter of that hook is applied to what the one before
/// it returned, in the order of adding; the others leave the value alone.
pub open spec fn applied<T, F: Fn(T) -> T>(
    hooks: Seq<String>,
    filters: Seq<F>,
    hook: Seq<char>,
    upto: int,
    value: T,
    result: T,
) -> bool
    decreases upto,
{
    if upto <= 0 {
        result == value
    } else {
        exists|mid: T|
            applied(hooks, filters, hook, upto - 1, value, mid) && #[trigger] passed(
                hooks[upto - 1]@,
                hook,
                filters[upto - 1],
                mid,
                result,
            )
    }
}

impl<F> FilterRegistry<F> {
    /// Every filter has a hook name.
    pub open spec fn wf(self) -> bool {
        self.hooks@.len() == self.filters@.len()
    }

    /// Every filter accepts every value.
    pub open spec fn accepts_all<T>(self) -> bool where F: Fn(T) -> T {
        forall|i: int, x: T|
            0 <= i < self.filters@.len() ==> #[trigger] call_requires(self.filters@[i], (x,))
    }

    /// A registry without filters.
    pub fn new() -> (registry: Self)
        ensures
            registry.wf(),
            registry.hooks@.len() == 0,
    {
        FilterRegistry { hooks: Vec::new(), filters: Vec::new() }
    }

}

/// Adds a filter to a hook, behind those that the hook has already.
pub fn add_filter<F>(registry: &mut FilterRegistry<F>, hook: &str, filter: F)
    requires
        old(registry).wf(),
    ensures
        final(registry).wf(),
        final(registry).filters@ == old(registry).filters@.push(filter),
        final(registry).hooks@.len() == old(registry).hooks@.len() + 1,
        forall|i: int|
            0 <= i < old(registry).hooks@.len() ==> final(registry).hooks@[i] == old(
                registry,
            ).hooks@[i],
        final(registry).hooks@[old(registry).hooks@.len() as int]@ == hook@,
{
    registry.hooks.push(String::from_str(hook));
    registry.filters.push(filter);
}

/// Passes `value` through the filters of `hook`, in the order in which they
/// were added. A hook without filters returns the value as it is.
pub fn apply_filter<T, F: Fn(T) -> T>(registry: &FilterRegistry<F>, hook: &str, value: T) -> (result:
    T)
    requires
        registry.wf(),
        registry.accepts_all::<T>(),
    ensures
        applied(
            registry.hooks@,
            registry.filters@,
            hook@,
            registry.filters@.len() as int,
            value,
            result,
        ),
{
    let mut val = value;
    let mut i: usize = 0;
    while i < registry.filters.len()
        invariant
            i <= registry.filters@.len(),
            registry.wf(),
            registry.accepts_all::<T>(),
            applied(registry.hooks@, registry.filters@, hook@, i as int, value, val),
        decreases registry.filters@.len() - i,
    {
        let ghost before = val;
        if text_equals(registry.hooks[i].as_str(), hook) {
            val = (registry.filters[i])(val);
        }
        assert(applied(registry.hooks@, registry.filters@, hook@, i + 1, value, val)) by {
            assert(passed(
                registry.hooks@[i + 1 - 1]@,
                hook@,
                registry.filters@[i + 1 - 1],
                before,
                val,
            ));
        }
        i += 1;
    }
    val
}

/// A hook without filters leaves the value as it is.
pub proof fn lemma_unknown_hook_keeps_value<T, F: Fn(T) -> T>(
    hooks: Seq<String>,
    filters: Seq<F>,
    hook: Seq<char>,
    upto: int,
    value: T,
    result: T,
)
    requires
        0 <= upto <= hooks.len(),
        forall|i: int| 0 <= i < upto ==> (#[trigger] hooks[i])@ != hook,
        applied(hooks, filters, hook, upto, value, result),
    ensures
        result == value,
    decreases upto,
{
    if upto > 0 {
        let mid = choose|mid: T|
            applied(hooks, filters, hook, upto - 1, value, mid) && #[trigger] passed(
                hooks[upto - 1]@,
                hook,
                filters[upto - 1],
                mid,
                result,
            );
        lemma_unknown_hook_keeps_value(hooks, filters, hook, upto - 1, value, mid);
    }
}

} // verus!
