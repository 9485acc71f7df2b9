//! Selectively read and write values to/from multiple selectables simultaneously.

pub mod thread;

use std::collections::VecDeque;

use vstd::prelude::*;

verus! {

/// The values that a permit was constructed with.
#[derive(PartialEq, Eq, Structural)]
pub struct PermitView {
    pub primitive: usize,
    pub attendant: Option<usize>,
}

/// Permit promises to [Select] that read or write will not block current execution.
#[derive(Debug, PartialEq, Eq)]
pub struct Permit {
    primitive: usize,
    attendant: Option<usize>,
}

impl View for Permit {
    type V = PermitView;

    closed spec fn view(&self) -> PermitView {
        PermitView { primitive: self.primitive, attendant: self.attendant }
    }
}

impl Permit {
    /// Constructs a permit with primitive value.
    pub fn with_primitive(primitive: usize) -> (permit: Self)
        ensures
            permit@ == (PermitView { primitive, attendant: None }),
    {
        Permit { primitive, attendant: None }
    }

    /// Turns this permit to primitive value.
    pub fn into_primitive(self) -> (primitive: usize)
        requires
            self@.attendant is None,
        ensures
            primitive == self@.primitive,
    {
        self.primitive
    }

    /// Constructs a permit with compound values.
    pub fn with_compound(primitive: usize, attendant: usize) -> (permit: Self)
        ensures
            permit@ == (PermitView { primitive, attendant: Some(attendant) }),
    {
        Permit { primitive, attendant: Some(attendant) }
    }

    /// Turns this permit to compound values.
    pub fn into_compound(self) -> (values: (usize, usize))
        requires
            self@.attendant is Some,
        ensures
            values == (self@.primitive, self@.attendant->0),
    {
        match self.attendant {
            Some(attendant) => (self.primitive, attendant),
            None => (self.primitive, 0),
        }
    }
}

impl Default for Permit {
    fn default() -> (permit: Self)
        ensures
            permit@ == (PermitView { primitive: 0, attendant: None }),
    {
        Permit::with_primitive(0)
    }
}

/// Error for selecting without blocking.
#[derive(Debug, PartialEq, Eq, Structural, Clone, Copy)]
pub enum TrySelectError {
    /// No available permit now.
    WouldBlock,
    /// All permits exhausted.
    Completed,
}

/// [Selector] identifier.
#[derive(Debug)]
pub struct Identifier {
    raw: u64,
}

impl View for Identifier {
    type V = u64;

    closed spec fn view(&self) -> u64 {
        self.raw
    }
}

impl Identifier {
    /// Constructs an identifier of one selection. Selections that overlap in time differ in `raw`.
    pub fn new(raw: u64) -> (identifier: Self)
        ensures
            identifier@ == raw,
    {
        Identifier { raw }
    }

    /// Checks whether both identify the same selection.
    pub fn equals(&self, other: &Identifier) -> (equal: bool)
        ensures
            equal == (self@ == other@),
    {
        self.raw == other.raw
    }

    /// Constructs another identifier of the same selection.
    pub fn copy(&self) -> (identifier: Self)
        ensures
            identifier@ == self@,
    {
        Identifier { raw: self.raw }
    }
}

/// Selector waits permit application from [Selectable].
///
/// `W` wakes the selection that this selector belongs to.
pub struct Selector<W> {
    index: usize,
    waker: W,
    identifier: Identifier,
}

impl<W> Selector<W> {
    /// Position of the watched candidate in the selection.
    pub closed spec fn spec_index(&self) -> usize {
        self.index
    }

    /// Waker of the selection.
    pub closed spec fn spec_waker(&self) -> W {
        self.waker
    }

    /// Identifier of the selection.
    pub closed spec fn spec_identifier(&self) -> u64 {
        self.identifier@
    }

    /// Constructs a selector for one candidate.
    pub fn new(index: usize, waker: W, identifier: Identifier) -> (selector: Self)
        ensures
            selector.spec_index() == index,
            selector.spec_waker() == waker,
            selector.spec_identifier() == identifier@,
    {
        Selector { index, waker, identifier }
    }

    /// Applies a permit if no one applied before: returns whom to wake, and with what.
    pub fn apply(self, permit: Permit) -> (wakeup: (W, (usize, Permit)))
        ensures
            wakeup == (self.spec_waker(), (self.spec_index(), permit)),
    {
        (self.waker, (self.index, permit))
    }

    /// Identifies this selector as given identifier.
    pub fn identify(&self, identifier: &Identifier) -> (identified: bool)
        ensures
            identified == (self.spec_identifier() == identifier@),
    {
        self.identifier.equals(identifier)
    }
}

/// Enumerate selectables in predictable but not sequential order.
pub struct Enumerator {
    next: usize,
    end: usize,
    len: usize,
}

impl Enumerator {
    /// The `k`-th candidate of `len` to visit when starting at `start`.
    pub open spec fn visit(start: int, len: nat, k: int) -> int {
        (start + k) % (len as int)
    }

    pub closed spec fn spec_len(&self) -> nat {
        self.len as nat
    }

    /// Number of candidates left.
    pub closed spec fn left(&self) -> nat {
        (self.end - self.next) as nat
    }

    /// The candidate that is visited first.
    pub closed spec fn start(&self) -> int {
        self.end - self.len
    }

    pub closed spec fn wf(&self) -> bool {
        &&& 0 < self.len
        &&& self.len <= self.end < 2 * self.len
        &&& self.end - self.len <= self.next <= self.end
    }

    /// Enumerates `len` candidates from a random one.
    pub fn new(random: usize, len: usize) -> (enumerator: Self)
        requires
            0 < len,
            2 * len <= usize::MAX,
        ensures
            enumerator.wf(),
            enumerator.spec_len() == len,
            enumerator.left() == len,
            enumerator.start() == random % len,
    {
        let start: usize = random % len;
        Enumerator { next: start, end: start + len, len }
    }

    /// Whether the next candidate has been taken.
    pub open spec fn nexts(self, after: Self, index: Option<usize>) -> bool {
        &&& after.wf()
        &&& after.spec_len() == self.spec_len()
        &&& after.start() == self.start()
        &&& self.left() == 0 ==> index is None && after.left() == 0
        &&& self.left() > 0 ==> {
            &&& after.left() == self.left() - 1
            &&& index is Some
            &&& index->0 < self.spec_len()
            &&& index->0 == Self::visit(
                self.start(),
                self.spec_len(),
                self.spec_len() - self.left(),
            )
        }
    }

    /// Enumerates the same candidates anew.
    pub fn again(&self) -> (enumerator: Self)
        requires
            self.wf(),
        ensures
            enumerator.wf(),
            enumerator.spec_len() == self.spec_len(),
            enumerator.left() == self.spec_len(),
            enumerator.start() == self.start(),
    {
        Enumerator { next: self.end - self.len, end: self.end, len: self.len }
    }

    /// Next candidate to visit.
    pub fn next(&mut self) -> (index: Option<usize>)
        requires
            old(self).wf(),
        ensures
            old(self).nexts(*final(self), index),
    {
        if self.next >= self.end {
            None
        } else {
            let index: usize = self.next % self.len;
            self.next = self.next + 1;
            Some(index)
        }
    }
}

/// An enumeration visits every candidate once and only once.
pub proof fn law_visits_each_once(start: int, len: nat, index: int)
    requires
        0 <= start < len,
        0 <= index < len,
    ensures
        exists|k: int| 0 <= k < len && #[trigger] Enumerator::visit(start, len, k) == index,
        forall|j: int, k: int|
            0 <= j < len && 0 <= k < len && #[trigger] Enumerator::visit(start, len, j)
                == #[trigger] Enumerator::visit(start, len, k) ==> j == k,
{
    assert forall|k: int| 0 <= k < len implies #[trigger] Enumerator::visit(start, len, k) == if start
        + k < len {
        start + k
    } else {
        start + k - len
    } by {
        if start + k < len {
            vstd::arithmetic::div_mod::lemma_small_mod((start + k) as nat, len);
        } else {
            vstd::arithmetic::div_mod::lemma_mod_add_multiples_vanish(
                start + k - len,
                len as int,
            );
            vstd::arithmetic::div_mod::lemma_small_mod((start + k - len) as nat, len);
        }
    }
    let k = if index >= start {
        index - start
    } else {
        index - start + len
    };
    assert(Enumerator::visit(start, len, k) == index);
}

/// [Select] candidate.
pub trait Selectable<W, F: Fn(W, (usize, Permit)) -> bool>: Sized {
    /// Whether this candidate may be used.
    spec fn wf(&self) -> bool;

    spec fn spec_parallel(&self) -> bool;

    /// Whether selecting may answer so and leave `after`.
    spec fn selects(&self, after: &Self, answer: Result<Permit, TrySelectError>) -> bool;

    /// Whether watching may answer so and leave `after`.
    spec fn watches(
        &self,
        after: &Self,
        selector: Selector<W>,
        wake: F,
        watched: bool,
    ) -> bool;

    /// Whether unwatching may leave `after`.
    spec fn unwatches(&self, after: &Self, identifier: u64) -> bool;

    /// Returns true if permit watching will contend with possible parallel executions.
    fn parallel(&self) -> (parallel: bool)
        ensures
            parallel == self.spec_parallel(),
    ;

    /// Select for available permit.
    fn select_permit(&mut self) -> (answer: Result<Permit, TrySelectError>)
        requires
            old(self).wf(),
        ensures
            final(self).wf(),
            old(self).selects(final(self), answer),
    ;

    /// Watches for available permit.
    ///
    /// If permit is available now, applies it and returns true.
    fn watch_permit(
        &mut self,
        selector: Selector<W>,
        wake: &F,
    ) -> (watched: bool)
        requires
            forall|waker: W, selection: (usize, Permit)| #[trigger]
                call_requires(*wake, (waker, selection)),
            old(self).wf(),
        ensures
            final(self).wf(),
            old(self).watches(final(self), selector, *wake, watched),
    ;

    /// Unwatches possible applied selector.
    fn unwatch_permit(&mut self, identifier: &Identifier)
        requires
            old(self).wf(),
        ensures
            final(self).wf(),
            old(self).unwatches(final(self), identifier@),
    ;
}

/// Whether a selector has been told a permit that is ready.
pub open spec fn applied_ready<W, F: Fn(W, (usize, Permit)) -> bool>(
    selector: Selector<W>,
    wake: F,
) -> bool {
    exists|permit: Permit, first: bool|
        permit@ == (PermitView { primitive: 0, attendant: None }) && #[trigger] call_ensures(
            wake,
            (selector.spec_waker(), (selector.spec_index(), permit)),
            first,
        )
}

fn apply_ready<W, F: Fn(W, (usize, Permit)) -> bool>(selector: Selector<W>, wake: &F)
    requires
        forall|waker: W, selection: (usize, Permit)| #[trigger]
            call_requires(*wake, (waker, selection)),
    ensures
        applied_ready(selector, *wake),
{
    let (waker, (index, permit)) = selector.apply(Permit::default());
    let ghost given = permit;
    let first = wake(waker, (index, permit));
    assert(call_ensures(*wake, (selector.spec_waker(), (selector.spec_index(), given)), first));
}

/// Reader that read value with previously selected permit.
pub trait PermitReader: Sized {
    type Result;

    /// Whether the permit could have been selected.
    spec fn consumable(&self, permit: PermitView) -> bool;

    /// Whether consuming may give so and leave `after`.
    spec fn consumes(&self, after: &Self, permit: PermitView, result: Self::Result) -> bool;

    /// Consumes permit and reads value. This operation must not block.
    fn consume_permit(&mut self, permit: Permit) -> (result: Self::Result)
        requires
            old(self).consumable(permit@),
        ensures
            old(self).consumes(final(self), permit@, result),
    ;
}

/// Writer that writes value with previously selected permit.
pub trait PermitWriter: Sized {
    type Item;

    type Result;

    /// Whether the permit could have been selected.
    spec fn consumable(&self, permit: PermitView) -> bool;

    /// Whether consuming may give so and leave `after`.
    spec fn consumes(
        &self,
        after: &Self,
        permit: PermitView,
        value: Self::Item,
        result: Self::Result,
    ) -> bool;

    /// Consumes permit and writes given value. This operation must not block.
    fn consume_permit(&mut self, permit: Permit, value: Self::Item) -> (result: Self::Result)
        requires
            old(self).consumable(permit@),
        ensures
            old(self).consumes(final(self), permit@, value, result),
    ;
}

/// [Selectable] for [never()].
#[non_exhaustive]
pub struct Never;

/// Constructs a selectable that is never ready to consume.
pub fn never() -> (never: Never)
    ensures
        never == Never,
{
    Never
}

impl<W, F: Fn(W, (usize, Permit)) -> bool> Selectable<W, F> for Never {
    open spec fn wf(&self) -> bool {
        true
    }

    open spec fn spec_parallel(&self) -> bool {
        false
    }

    open spec fn selects(&self, after: &Self, answer: Result<Permit, TrySelectError>) -> bool {
        after == self && answer == Err::<Permit, _>(TrySelectError::Completed)
    }

    open spec fn watches(
        &self,
        after: &Self,
        selector: Selector<W>,
        wake: F,
        watched: bool,
    ) -> bool {
        after == self && !watched
    }

    open spec fn unwatches(&self, after: &Self, identifier: u64) -> bool {
        after == self
    }

    fn parallel(&self) -> (parallel: bool) {
        false
    }

    fn select_permit(&mut self) -> (answer: Result<Permit, TrySelectError>) {
        Err(TrySelectError::Completed)
    }

    fn watch_permit(
        &mut self,
        _selector: Selector<W>,
        _wake: &F,
    ) -> (watched: bool) {
        false
    }

    fn unwatch_permit(&mut self, _identifier: &Identifier) {
    }
}

/// [Selectable] for [ready].
pub struct Ready<T> {
    value: Option<T>,
}

impl<T> View for Ready<T> {
    type V = Option<T>;

    closed spec fn view(&self) -> Option<T> {
        self.value
    }
}

/// Constructs a selectable that is immediately ready with given value.
pub fn ready<T>(value: T) -> (ready: Ready<T>)
    ensures
        ready@ == Some(value),
{
    Ready { value: Some(value) }
}

impl<T> PermitReader for Ready<T> {
    type Result = T;

    open spec fn consumable(&self, permit: PermitView) -> bool {
        self@ is Some
    }

    open spec fn consumes(&self, after: &Self, permit: PermitView, result: T) -> bool {
        self@ == Some(result) && after@ is None
    }

    fn consume_permit(&mut self, _permit: Permit) -> (result: T) {
        self.value.take().unwrap()
    }
}

impl<T, W, F: Fn(W, (usize, Permit)) -> bool> Selectable<W, F> for Ready<T> {
    open spec fn wf(&self) -> bool {
        true
    }

    open spec fn spec_parallel(&self) -> bool {
        false
    }

    open spec fn selects(&self, after: &Self, answer: Result<Permit, TrySelectError>) -> bool {
        &&& after@ == self@
        &&& if self@ is Some {
            answer is Ok && answer->Ok_0@ == (PermitView { primitive: 0, attendant: None })
        } else {
            answer == Err::<Permit, _>(TrySelectError::Completed)
        }
    }

    open spec fn watches(
        &self,
        after: &Self,
        selector: Selector<W>,
        wake: F,
        watched: bool,
    ) -> bool {
        &&& after@ == self@
        &&& watched == self@ is Some
        &&& watched ==> applied_ready(selector, wake)
    }

    open spec fn unwatches(&self, after: &Self, identifier: u64) -> bool {
        after@ == self@
    }

    fn parallel(&self) -> (parallel: bool) {
        false
    }

    fn select_permit(&mut self) -> (answer: Result<Permit, TrySelectError>) {
        if self.value.is_some() {
            Ok(Permit::default())
        } else {
            Err(TrySelectError::Completed)
        }
    }

    fn watch_permit(
        &mut self,
        selector: Selector<W>,
        wake: &F,
    ) -> (watched: bool) {
        if self.value.is_some() {
            apply_ready(selector, wake);
            true
        } else {
            false
        }
    }

    fn unwatch_permit(&mut self, _identifier: &Identifier) {
    }
}

impl<T> PermitReader for VecDeque<T> {
    type Result = T;

    open spec fn consumable(&self, permit: PermitView) -> bool {
        self@.len() > 0
    }

    open spec fn consumes(&self, after: &Self, permit: PermitView, result: T) -> bool {
        result == self@[0] && after@ == self@.skip(1)
    }

    fn consume_permit(&mut self, _permit: Permit) -> (result: T) {
        let value = self.pop_front().unwrap();
        assert(self@ =~= old(self)@.skip(1));
        value
    }
}

impl<T, W, F: Fn(W, (usize, Permit)) -> bool> Selectable<W, F> for VecDeque<T> {
    open spec fn wf(&self) -> bool {
        true
    }

    open spec fn spec_parallel(&self) -> bool {
        false
    }

    open spec fn selects(&self, after: &Self, answer: Result<Permit, TrySelectError>) -> bool {
        &&& after@ == self@
        &&& if (self@.len() > 0) {
            answer is Ok && answer->Ok_0@ == (PermitView { primitive: 0, attendant: None })
        } else {
            answer == Err::<Permit, _>(TrySelectError::Completed)
        }
    }

    open spec fn watches(
        &self,
        after: &Self,
        selector: Selector<W>,
        wake: F,
        watched: bool,
    ) -> bool {
        &&& after@ == self@
        &&& watched == (self@.len() > 0)
        &&& watched ==> applied_ready(selector, wake)
    }

    open spec fn unwatches(&self, after: &Self, identifier: u64) -> bool {
        after@ == self@
    }

    fn parallel(&self) -> (parallel: bool) {
        false
    }

    fn select_permit(&mut self) -> (answer: Result<Permit, TrySelectError>) {
        if self.len() > 0 {
            Ok(Permit::default())
        } else {
            Err(TrySelectError::Completed)
        }
    }

    fn watch_permit(
        &mut self,
        selector: Selector<W>,
        wake: &F,
    ) -> (watched: bool) {
        if self.len() > 0 {
            apply_ready(selector, wake);
            true
        } else {
            false
        }
    }

    fn unwatch_permit(&mut self, _identifier: &Identifier) {
    }
}

impl<T> PermitReader for Option<T> {
    type Result = T;

    open spec fn consumable(&self, permit: PermitView) -> bool {
        self is Some
    }

    open spec fn consumes(&self, after: &Self, permit: PermitView, result: T) -> bool {
        *self == Some(result) && after is None
    }

    fn consume_permit(&mut self, _permit: Permit) -> (result: T) {
        self.take().unwrap()
    }
}

impl<T, W, F: Fn(W, (usize, Permit)) -> bool> Selectable<W, F> for Option<T> {
    open spec fn wf(&self) -> bool {
        true
    }

    open spec fn spec_parallel(&self) -> bool {
        false
    }

    open spec fn selects(&self, after: &Self, answer: Result<Permit, TrySelectError>) -> bool {
        &&& after == self
        &&& if self is Some {
            answer is Ok && answer->Ok_0@ == (PermitView { primitive: 0, attendant: None })
        } else {
            answer == Err::<Permit, _>(TrySelectError::Completed)
        }
    }

    open spec fn watches(
        &self,
        after: &Self,
        selector: Selector<W>,
        wake: F,
        watched: bool,
    ) -> bool {
        &&& after == self
        &&& watched == self is Some
        &&& watched ==> applied_ready(selector, wake)
    }

    open spec fn unwatches(&self, after: &Self, identifier: u64) -> bool {
        after == self
    }

    fn parallel(&self) -> (parallel: bool) {
        false
    }

    fn select_permit(&mut self) -> (answer: Result<Permit, TrySelectError>) {
        if self.is_some() {
            Ok(Permit::default())
        } else {
            Err(TrySelectError::Completed)
        }
    }

    fn watch_permit(
        &mut self,
        selector: Selector<W>,
        wake: &F,
    ) -> (watched: bool) {
        if self.is_some() {
            apply_ready(selector, wake);
            true
        } else {
            false
        }
    }

    fn unwatch_permit(&mut self, _identifier: &Identifier) {
    }
}

/// Select candidates to read and/or write value in blocking or nonblocking.
pub trait Select<W, F: Fn(W, (usize, Permit)) -> bool>: Sized {
    /// Whether the candidates may be used.
    spec fn wf(&self) -> bool;

    /// Number of candidates.
    spec fn spec_len(&self) -> nat;

    /// Whether the candidate is enabled.
    spec fn spec_enabled(&self, index: int) -> bool;

    spec fn spec_parallel(&self, index: int) -> bool;

    /// Whether selecting the candidate may answer so and leave `after`.
    spec fn selects(
        &self,
        index: int,
        after: &Self,
        answer: Result<Permit, TrySelectError>,
    ) -> bool;

    /// Whether watching the candidate may answer so and leave `after`.
    spec fn watches(
        &self,
        index: int,
        after: &Self,
        selector: Selector<W>,
        wake: F,
        watched: bool,
    ) -> bool;

    /// Whether unwatching the candidate may leave `after`.
    spec fn unwatches(&self, index: int, after: &Self, identifier: u64) -> bool;

    /// Returns number of candidates.
    fn len(&self) -> (len: usize)
        requires
            self.wf(),
        ensures
            len == self.spec_len(),
            2 * len <= usize::MAX,
    ;

    /// Returns true if the candidate is enabled.
    fn enabled(&self, index: usize) -> (enabled: bool)
        requires
            self.wf(),
            index < self.spec_len(),
        ensures
            enabled == self.spec_enabled(index as int),
    ;

    /// Returns true if watching the candidate will contend with possible parallel executions.
    fn parallel(&self, index: usize) -> (parallel: bool)
        requires
            self.wf(),
            index < self.spec_len(),
            self.spec_enabled(index as int),
        ensures
            parallel == self.spec_parallel(index as int),
    ;

    /// Selects an enabled candidate for available permit.
    fn select_permit(&mut self, index: usize) -> (answer: Result<Permit, TrySelectError>)
        requires
            old(self).wf(),
            index < old(self).spec_len(),
            old(self).spec_enabled(index as int),
        ensures
            final(self).wf(),
            final(self).spec_len() == old(self).spec_len(),
            forall|i: int| #[trigger] final(self).spec_enabled(i) == old(self).spec_enabled(i),
            old(self).selects(index as int, final(self), answer),
    ;

    /// Watches an enabled candidate for available permit.
    fn watch_permit(&mut self, index: usize, selector: Selector<W>, wake: &F) -> (watched: bool)
        requires
            forall|waker: W, selection: (usize, Permit)| #[trigger]
                call_requires(*wake, (waker, selection)),
            old(self).wf(),
            index < old(self).spec_len(),
            old(self).spec_enabled(index as int),
        ensures
            final(self).wf(),
            final(self).spec_len() == old(self).spec_len(),
            forall|i: int| #[trigger] final(self).spec_enabled(i) == old(self).spec_enabled(i),
            old(self).watches(index as int, final(self), selector, *wake, watched),
    ;

    /// Unwatches an enabled candidate.
    fn unwatch_permit(&mut self, index: usize, identifier: &Identifier)
        requires
            old(self).wf(),
            index < old(self).spec_len(),
            old(self).spec_enabled(index as int),
        ensures
            final(self).wf(),
            final(self).spec_len() == old(self).spec_len(),
            forall|i: int| #[trigger] final(self).spec_enabled(i) == old(self).spec_enabled(i),
            old(self).unwatches(index as int, final(self), identifier@),
    ;
}

/// Candidates in a row, `None` where one is disabled.
impl<W, F: Fn(W, (usize, Permit)) -> bool, S: Selectable<W, F>> Select<W, F> for Vec<Option<S>> {
    open spec fn wf(&self) -> bool {
        &&& 2 * self@.len() <= usize::MAX
        &&& forall|i: int|
            0 <= i < self@.len() && (#[trigger] self@[i]) is Some ==> self@[i]->0.wf()
    }

    open spec fn spec_len(&self) -> nat {
        self@.len()
    }

    open spec fn spec_enabled(&self, index: int) -> bool {
        0 <= index < self@.len() && self@[index] is Some
    }

    open spec fn spec_parallel(&self, index: int) -> bool {
        self@[index]->0.spec_parallel()
    }

    open spec fn selects(
        &self,
        index: int,
        after: &Self,
        answer: Result<Permit, TrySelectError>,
    ) -> bool {
        exists|one: S|
            after@ == self@.update(index, Some(one)) && #[trigger] self@[index]->0.selects(
                &one,
                answer,
            )
    }

    open spec fn watches(
        &self,
        index: int,
        after: &Self,
        selector: Selector<W>,
        wake: F,
        watched: bool,
    ) -> bool {
        exists|one: S|
            after@ == self@.update(index, Some(one)) && #[trigger] self@[index]->0.watches(
                &one,
                selector,
                wake,
                watched,
            )
    }

    open spec fn unwatches(&self, index: int, after: &Self, identifier: u64) -> bool {
        exists|one: S|
            after@ == self@.update(index, Some(one)) && #[trigger] self@[index]->0.unwatches(
                &one,
                identifier,
            )
    }

    fn len(&self) -> (len: usize) {
        self.len()
    }

    fn enabled(&self, index: usize) -> (enabled: bool) {
        self[index].is_some()
    }

    fn parallel(&self, index: usize) -> (parallel: bool) {
        match &self[index] {
            Some(selectable) => selectable.parallel(),
            None => false,
        }
    }

    fn select_permit(&mut self, index: usize) -> (answer: Result<Permit, TrySelectError>) {
        let mut selectable = self[index].take().unwrap();
        let answer = selectable.select_permit();
        self[index] = Some(selectable);
        assert(self@ =~= old(self)@.update(index as int, Some(selectable)));
        answer
    }

    fn watch_permit(&mut self, index: usize, selector: Selector<W>, wake: &F) -> (watched: bool) {
        let mut selectable = self[index].take().unwrap();
        let watched = selectable.watch_permit(selector, wake);
        self[index] = Some(selectable);
        assert(self@ =~= old(self)@.update(index as int, Some(selectable)));
        watched
    }

    fn unwatch_permit(&mut self, index: usize, identifier: &Identifier) {
        let mut selectable = self[index].take().unwrap();
        selectable.unwatch_permit(identifier);
        self[index] = Some(selectable);
        assert(self@ =~= old(self)@.update(index as int, Some(selectable)));
    }
}

/// Answers of the candidates that were asked in turn, `None` where one is disabled, with the
/// candidates before each question and after the last.
pub ghost struct Asked<S> {
    pub states: Seq<S>,
    pub answers: Seq<Option<Result<Permit, TrySelectError>>>,
}

impl<S> Asked<S> {
    /// Whether candidates have been asked in turn from the one at `start`.
    pub open spec fn asks<W, F: Fn(W, (usize, Permit)) -> bool>(
        self,
        before: S,
        after: S,
        start: int,
    ) -> bool where S: Select<W, F> {
        &&& self.states.len() == self.answers.len() + 1
        &&& self.states[0] == before
        &&& self.states.last() == after
        &&& forall|k: int|
            0 <= k < self.answers.len() ==> Self::asks_one(
                self.states[k],
                self.states[k + 1],
                Enumerator::visit(start, before.spec_len(), k),
                #[trigger] self.answers[k],
            )
    }

    pub open spec fn asks_one<W, F: Fn(W, (usize, Permit)) -> bool>(
        before: S,
        after: S,
        index: int,
        answer: Option<Result<Permit, TrySelectError>>,
    ) -> bool where S: Select<W, F> {
        if before.spec_enabled(index) {
            answer is Some && before.selects(index, &after, answer->0)
        } else {
            answer is None && after == before
        }
    }

    /// These answers and one more.
    pub open spec fn and(self, after: S, answer: Option<Result<Permit, TrySelectError>>) -> Self {
        Asked { states: self.states.push(after), answers: self.answers.push(answer) }
    }

    proof fn lemma_and<W, F: Fn(W, (usize, Permit)) -> bool>(
        self,
        before: S,
        state: S,
        after: S,
        start: int,
        answer: Option<Result<Permit, TrySelectError>>,
    ) where S: Select<W, F>
        requires
            self.asks::<W, F>(before, state, start),
            Self::asks_one(
                state,
                after,
                Enumerator::visit(start, before.spec_len(), self.answers.len() as int),
                answer,
            ),
        ensures
            self.and(after, answer).asks::<W, F>(before, after, start),
            self.and(after, answer).in_vain() <==> self.in_vain() && !(answer is Some
                && answer->0 is Ok),
            self.and(after, answer).blocked() <==> self.blocked() || answer == Some(
                Err::<Permit, _>(TrySelectError::WouldBlock),
            ),
    {
        let more = self.and(after, answer);
        let n = self.answers.len() as int;
        assert(more.answers[n] == answer);
        assert forall|k: int| 0 <= k < more.answers.len() implies Self::asks_one(
            more.states[k],
            more.states[k + 1],
            Enumerator::visit(start, before.spec_len(), k),
            #[trigger] more.answers[k],
        ) by {
            if k < n {
                assert(more.answers[k] == self.answers[k]);
            }
        }
        assert forall|k: int| 0 <= k < n implies #[trigger] self.answers[k] == more.answers[k] by {}
        if self.blocked() {
            let k = choose|k: int|
                0 <= k < self.answers.len() && #[trigger] self.answers[k] == Some(
                    Err::<Permit, _>(TrySelectError::WouldBlock),
                );
            assert(more.answers[k] == self.answers[k]);
        }
        if more.blocked() {
            let k = choose|k: int|
                0 <= k < more.answers.len() && #[trigger] more.answers[k] == Some(
                    Err::<Permit, _>(TrySelectError::WouldBlock),
                );
            if k < n {
                assert(self.answers[k] == more.answers[k]);
            }
        }
        if more.in_vain() {
            assert forall|k: int| 0 <= k < n implies !((#[trigger] self.answers[k]) is Some
                && self.answers[k]->0 is Ok) by {
                assert(more.answers[k] == self.answers[k]);
            }
        }
    }

    /// Whether nobody had a permit.
    pub open spec fn in_vain(self) -> bool {
        forall|k: int|
            0 <= k < self.answers.len() ==> !((#[trigger] self.answers[k]) is Some
                && self.answers[k]->0 is Ok)
    }

    /// Whether somebody would have a permit later.
    pub open spec fn blocked(self) -> bool {
        exists|k: int|
            0 <= k < self.answers.len() && #[trigger] self.answers[k] == Some(
                Err::<Permit, _>(TrySelectError::WouldBlock),
            )
    }
}

/// Whether `result` is what the candidates' answers come to.
pub open spec fn selected<S>(
    asked: Asked<S>,
    start: int,
    len: nat,
    result: Result<(usize, Permit), TrySelectError>,
) -> bool {
    match result {
        Ok((index, permit)) => {
            &&& 0 < asked.answers.len() <= len
            &&& index < len
            &&& index == Enumerator::visit(start, len, asked.answers.len() - 1)
            &&& asked.answers.last() == Some(Ok::<_, TrySelectError>(permit))
            &&& Asked { answers: asked.answers.drop_last(), ..asked }.in_vain()
        },
        Err(err) => {
            &&& asked.answers.len() == len
            &&& asked.in_vain()
            &&& err == if asked.blocked() {
                TrySelectError::WouldBlock
            } else {
                TrySelectError::Completed
            }
        },
    }
}

/// Whether trying to select from the candidate at `start` on may give `result` and leave `after`.
pub open spec fn tries<W, F: Fn(W, (usize, Permit)) -> bool, S: Select<W, F>>(
    before: S,
    after: S,
    start: int,
    result: Result<(usize, Permit), TrySelectError>,
) -> bool {
    exists|asked: Asked<S>| #[trigger]
        asked.asks::<W, F>(before, after, start) && selected(
            asked,
            start,
            before.spec_len(),
            result,
        )
}

/// Candidates to ask for permits in turn.
pub struct Trying {
    selectables: Enumerator,
    blocked: bool,
}

impl Trying {
    /// Candidates in the order to ask them.
    pub closed spec fn spec_selectables(&self) -> Enumerator {
        self.selectables
    }

    /// Whether somebody would have a permit later.
    pub closed spec fn spec_blocked(&self) -> bool {
        self.blocked
    }

    /// Asks `len` candidates from a random one on.
    pub fn new(random: usize, len: usize) -> (trying: Self)
        requires
            0 < len,
            2 * len <= usize::MAX,
        ensures
            trying.spec_selectables().wf(),
            trying.spec_selectables().spec_len() == len,
            trying.spec_selectables().left() == len,
            trying.spec_selectables().start() == random % len,
            !trying.spec_blocked(),
    {
        Trying { selectables: Enumerator::new(random, len), blocked: false }
    }

    /// Next candidate to ask, if it is enabled.
    pub fn next(&mut self) -> (index: Option<usize>)
        requires
            old(self).spec_selectables().wf(),
        ensures
            final(self).spec_blocked() == old(self).spec_blocked(),
            old(self).spec_selectables().nexts(final(self).spec_selectables(), index),
    {
        self.selectables.next()
    }

    /// Takes note of the answer of the candidate that was asked. Returns the permit if that is one,
    /// which is then selected.
    pub fn answer(&mut self, answer: Result<Permit, TrySelectError>) -> (permit: Option<Permit>)
        ensures
            final(self).spec_selectables() == old(self).spec_selectables(),
            final(self).spec_blocked() == (old(self).spec_blocked() || answer == Err::<Permit, _>(
                TrySelectError::WouldBlock,
            )),
            permit == match answer {
                Ok(permit) => Some(permit),
                Err(_) => None,
            },
    {
        match answer {
            Ok(permit) => Some(permit),
            Err(TrySelectError::WouldBlock) => {
                self.blocked = true;
                None
            },
            Err(TrySelectError::Completed) => None,
        }
    }

    /// Why nothing was selected after all candidates have been asked.
    pub fn finish(self) -> (err: TrySelectError)
        ensures
            err == if self.spec_blocked() {
                TrySelectError::WouldBlock
            } else {
                TrySelectError::Completed
            },
    {
        if self.blocked {
            TrySelectError::WouldBlock
        } else {
            TrySelectError::Completed
        }
    }
}

/// Tries to select a permit for consumption, from a random candidate on.
///
/// The returned permit must be consumed otherwise it leaked.
pub fn try_select<W, F: Fn(W, (usize, Permit)) -> bool, S: Select<W, F>>(
    candidates: &mut S,
    random: usize,
) -> (result: Result<(usize, Permit), TrySelectError>)
    requires
        old(candidates).wf(),
        old(candidates).spec_len() > 0,
    ensures
        final(candidates).wf(),
        final(candidates).spec_len() == old(candidates).spec_len(),
        forall|i: int| #[trigger] final(candidates).spec_enabled(i) == old(candidates).spec_enabled(i),
        result matches Ok((index, _permit)) ==> old(candidates).spec_enabled(index as int),
        tries::<W, F, S>(
            *old(candidates),
            *final(candidates),
            random as int % old(candidates).spec_len() as int,
            result,
        ),
{
    let len: usize = candidates.len();
    let mut trying = Trying::new(random, len);
    let ghost start = trying.spec_selectables().start();
    let ghost mut asked: Asked<S> = Asked { states: seq![*candidates], answers: Seq::empty() };
    let mut checked: usize = 0;
    while checked < len
        invariant
            candidates.wf(),
            checked <= len,
            len == candidates.spec_len() == old(candidates).spec_len(),
            forall|i: int| #[trigger] candidates.spec_enabled(i) == old(candidates).spec_enabled(i),
            trying.spec_selectables().wf(),
            trying.spec_selectables().spec_len() == len,
            trying.spec_selectables().left() == len - checked,
            trying.spec_selectables().start() == start,
            start == random as int % len as int,
            asked.answers.len() == checked,
            asked.asks::<W, F>(*old(candidates), *candidates, start),
            asked.in_vain(),
            trying.spec_blocked() == asked.blocked(),
        decreases len - checked,
    {
        let ghost before = asked;
        let ghost state = *candidates;
        let index: usize = trying.next().unwrap();
        if candidates.enabled(index) {
            let answer = candidates.select_permit(index);
            proof {
                asked = before.and(*candidates, Some(answer));
                before.lemma_and::<W, F>(*old(candidates), state, *candidates, start, Some(answer));
            }
            if let Some(permit) = trying.answer(answer) {
                proof {
                    assert(asked.answers.drop_last() =~= before.answers);
                    assert(selected(asked, start, len as nat, Ok((index, permit))));
                    assert(asked.asks::<W, F>(*old(candidates), *candidates, start));
                }
                return Ok((index, permit));
            }
        } else {
            proof {
                asked = before.and(*candidates, None);
                before.lemma_and::<W, F>(*old(candidates), state, *candidates, start, None);
            }
        }
        checked = checked + 1;
    }
    let err = trying.finish();
    assert(selected(asked, start, len as nat, Err(err)));
    assert(asked.asks::<W, F>(*old(candidates), *candidates, start));
    Err(err)
}

/// What came of trying to select at once.
pub enum Selecting {
    /// Selected this, or nothing since all candidates are disabled or completed.
    Done(Option<(usize, Permit)>),
    /// Construct a waiter and a waker, [watch] with the waker, wait for the selection, and
    /// [unwatch](Witness::unwatch) then. If `parallel`, wakeups may come from other tasks.
    Wait { parallel: bool },
}

/// Selects a permit for consumption, or finds out how to wait for one.
///
/// The returned permit must be consumed otherwise it leaked.
pub fn select<W, F: Fn(W, (usize, Permit)) -> bool, S: Select<W, F>>(
    candidates: &mut S,
    random: usize,
) -> (selecting: Selecting)
    requires
        old(candidates).wf(),
        old(candidates).spec_len() > 0,
    ensures
        final(candidates).wf(),
        final(candidates).spec_len() == old(candidates).spec_len(),
        forall|i: int| #[trigger] final(candidates).spec_enabled(i) == old(candidates).spec_enabled(i),
        tries::<W, F, S>(
            *old(candidates),
            *final(candidates),
            random as int % old(candidates).spec_len() as int,
            match selecting {
                Selecting::Done(Some(selection)) => Ok(selection),
                Selecting::Done(None) => Err(TrySelectError::Completed),
                Selecting::Wait { parallel: _ } => Err(TrySelectError::WouldBlock),
            },
        ),
        selecting matches Selecting::Done(Some((index, _permit))) ==> old(candidates).spec_enabled(
            index as int,
        ),
        selecting matches Selecting::Wait { parallel } ==> parallel == exists|i: int|
            0 <= i < final(candidates).spec_len() && #[trigger] final(candidates).spec_enabled(i)
                && final(candidates).spec_parallel(i),
{
    match try_select(candidates, random) {
        Ok(selection) => return Selecting::Done(Some(selection)),
        Err(TrySelectError::Completed) => return Selecting::Done(None),
        Err(TrySelectError::WouldBlock) => {},
    }
    Selecting::Wait { parallel: any_parallel(candidates) }
}

fn any_parallel<W, F: Fn(W, (usize, Permit)) -> bool, S: Select<W, F>>(candidates: &S) -> (parallel:
    bool)
    requires
        candidates.wf(),
    ensures
        parallel == exists|i: int|
            0 <= i < candidates.spec_len() && #[trigger] candidates.spec_enabled(i)
                && candidates.spec_parallel(i),
{
    let len: usize = candidates.len();
    let mut index: usize = 0;
    while index < len
        invariant
            candidates.wf(),
            index <= len,
            len == candidates.spec_len(),
            forall|i: int|
                0 <= i < index && #[trigger] candidates.spec_enabled(i)
                    ==> !candidates.spec_parallel(i),
        decreases len - index,
    {
        if candidates.enabled(index) && candidates.parallel(index) {
            assert(candidates.spec_enabled(index as int) && candidates.spec_parallel(
                index as int,
            ));
            return true;
        }
        index = index + 1;
    }
    false
}

/// Candidates that were watched in turn, with what they answered, `None` where one is disabled.
pub ghost struct Watching<S> {
    pub states: Seq<S>,
    pub answers: Seq<Option<bool>>,
}

impl<S> Watching<S> {
    /// Whether candidates have been watched in turn from the one at `start`.
    pub open spec fn watches<W: Clone, F: Fn(W, (usize, Permit)) -> bool>(
        self,
        before: S,
        after: S,
        start: int,
        waker: W,
        identifier: u64,
        wake: F,
    ) -> bool where S: Select<W, F> {
        &&& self.states.len() == self.answers.len() + 1
        &&& self.states[0] == before
        &&& self.states.last() == after
        &&& forall|k: int|
            0 <= k < self.answers.len() ==> Self::watches_one(
                self.states[k],
                self.states[k + 1],
                Enumerator::visit(start, before.spec_len(), k),
                waker,
                identifier,
                wake,
                #[trigger] self.answers[k],
            )
    }

    pub open spec fn watches_one<W: Clone, F: Fn(W, (usize, Permit)) -> bool>(
        before: S,
        after: S,
        index: int,
        waker: W,
        identifier: u64,
        wake: F,
        answer: Option<bool>,
    ) -> bool where S: Select<W, F> {
        if before.spec_enabled(index) {
            answer is Some && exists|selector: Selector<W>|
                {
                    &&& #[trigger] before.watches(index, &after, selector, wake, answer->0)
                    &&& selector.spec_index() == index
                    &&& cloned(waker, selector.spec_waker())
                    &&& selector.spec_identifier() == identifier
                }
        } else {
            answer is None && after == before
        }
    }

    /// Whether `count` candidates of `len` have been watched, none of which has made the
    /// selection ready, and all, or one more that has.
    pub open spec fn stops<R: Fn() -> bool>(self, count: nat, len: nat, ready: R) -> bool {
        &&& forall|k: int|
            0 <= k < count && (#[trigger] self.answers[k]) == Some(true) ==> call_ensures(
                ready,
                (),
                false,
            )
        &&& if count == len {
            self.answers.len() == len
        } else {
            &&& count < len
            &&& self.answers.len() == count + 1
            &&& self.answers[count as int] == Some(true)
            &&& call_ensures(ready, (), true)
        }
    }

    pub open spec fn and(self, after: S, answer: Option<bool>) -> Self {
        Watching { states: self.states.push(after), answers: self.answers.push(answer) }
    }

    proof fn lemma_and<W: Clone, F: Fn(W, (usize, Permit)) -> bool>(
        self,
        before: S,
        state: S,
        after: S,
        start: int,
        waker: W,
        identifier: u64,
        wake: F,
        answer: Option<bool>,
    ) where S: Select<W, F>
        requires
            self.watches::<W, F>(before, state, start, waker, identifier, wake),
            Self::watches_one(
                state,
                after,
                Enumerator::visit(start, before.spec_len(), self.answers.len() as int),
                waker,
                identifier,
                wake,
                answer,
            ),
        ensures
            self.and(after, answer).watches::<W, F>(before, after, start, waker, identifier, wake),
    {
        let more = self.and(after, answer);
        assert forall|k: int| 0 <= k < more.answers.len() implies Self::watches_one(
            more.states[k],
            more.states[k + 1],
            Enumerator::visit(start, before.spec_len(), k),
            waker,
            identifier,
            wake,
            #[trigger] more.answers[k],
        ) by {
            if k < self.answers.len() {
                assert(more.answers[k] == self.answers[k]);
            }
        }
    }
}

/// Candidates to watch for permits in turn.
pub struct Watcher {
    selectables: Enumerator,
    checked: usize,
    identifier: Identifier,
}

impl Watcher {
    /// Candidates in the order to watch them.
    pub closed spec fn spec_selectables(&self) -> Enumerator {
        self.selectables
    }

    /// Number of candidates to unwatch.
    pub closed spec fn spec_checked(&self) -> nat {
        self.checked as nat
    }

    pub closed spec fn spec_identifier(&self) -> u64 {
        self.identifier@
    }

    pub open spec fn wf(&self) -> bool {
        &&& self.spec_selectables().wf()
        &&& self.spec_checked() + self.spec_selectables().left()
            <= self.spec_selectables().spec_len()
    }

    /// Watches `len` candidates from a random one on.
    pub fn new(random: usize, len: usize, identifier: Identifier) -> (watcher: Self)
        requires
            0 < len,
            2 * len <= usize::MAX,
        ensures
            watcher.wf(),
            watcher.spec_selectables().spec_len() == len,
            watcher.spec_selectables().left() == len,
            watcher.spec_selectables().start() == random % len,
            watcher.spec_checked() == 0,
            watcher.spec_identifier() == identifier@,
    {
        Watcher { selectables: Enumerator::new(random, len), checked: 0, identifier }
    }

    /// Next candidate to watch, if it is enabled.
    pub fn next(&mut self) -> (index: Option<usize>)
        requires
            old(self).wf(),
        ensures
            final(self).wf(),
            final(self).spec_checked() == old(self).spec_checked(),
            final(self).spec_identifier() == old(self).spec_identifier(),
            old(self).spec_selectables().nexts(final(self).spec_selectables(), index),
    {
        self.selectables.next()
    }

    /// Selector for a candidate to watch.
    pub fn selector<W>(&self, index: usize, waker: W) -> (selector: Selector<W>)
        ensures
            selector.spec_index() == index,
            selector.spec_waker() == waker,
            selector.spec_identifier() == self.spec_identifier(),
    {
        Selector::new(index, waker, self.identifier.copy())
    }

    /// Takes note that the candidate did not make the selection ready. If one does, watch no more.
    pub fn pass(&mut self)
        requires
            old(self).wf(),
            old(self).spec_checked() + old(self).spec_selectables().left() < old(self).spec_selectables().spec_len(),
        ensures
            final(self).wf(),
            final(self).spec_checked() == old(self).spec_checked() + 1,
            final(self).spec_identifier() == old(self).spec_identifier(),
            final(self).spec_selectables() == old(self).spec_selectables(),
    {
        self.checked = self.checked + 1;
    }

    /// Candidates to unwatch.
    pub fn finish(self) -> (witness: Witness)
        requires
            self.wf(),
        ensures
            witness.wf(),
            witness.spec_count() == self.spec_checked(),
            witness.spec_identifier() == self.spec_identifier(),
            witness.spec_selectables().start() == self.spec_selectables().start(),
            witness.spec_selectables().spec_len() == self.spec_selectables().spec_len(),
            witness.spec_selectables().left() == self.spec_selectables().spec_len(),
    {
        let selectables = self.selectables.again();
        Witness { count: self.checked, identifier: self.identifier, selectables }
    }
}

/// Candidates to unwatch once a selection is over.
pub struct Witness {
    count: usize,
    identifier: Identifier,
    selectables: Enumerator,
}

impl Witness {
    /// Number of candidates to unwatch.
    pub closed spec fn spec_count(&self) -> nat {
        self.count as nat
    }

    pub closed spec fn spec_identifier(&self) -> u64 {
        self.identifier@
    }

    /// Candidates in the order to unwatch them.
    pub closed spec fn spec_selectables(&self) -> Enumerator {
        self.selectables
    }

    pub open spec fn wf(&self) -> bool {
        &&& self.spec_selectables().wf()
        &&& self.spec_count() <= self.spec_selectables().left()
    }

    /// Identifier of the selection.
    pub fn identifier(&self) -> (identifier: &Identifier)
        ensures
            identifier@ == self.spec_identifier(),
    {
        &self.identifier
    }

    /// Next candidate to unwatch, if it is enabled.
    pub fn next(&mut self) -> (index: Option<usize>)
        requires
            old(self).wf(),
        ensures
            final(self).wf(),
            final(self).spec_identifier() == old(self).spec_identifier(),
            old(self).spec_count() == 0 ==> {
                &&& index is None
                &&& final(self).spec_count() == 0
                &&& final(self).spec_selectables() == old(self).spec_selectables()
            },
            old(self).spec_count() > 0 ==> {
                &&& final(self).spec_count() == old(self).spec_count() - 1
                &&& old(self).spec_selectables().nexts(final(self).spec_selectables(), index)
            },
    {
        if self.count == 0 {
            return None;
        }
        self.count = self.count - 1;
        self.selectables.next()
    }

    /// Unwatches the candidates that have been watched.
    pub fn unwatch<W, F: Fn(W, (usize, Permit)) -> bool, S: Select<W, F>>(self, candidates: &mut S)
        requires
            self.wf(),
            self.spec_selectables().left() == self.spec_selectables().spec_len(),
            old(candidates).wf(),
            old(candidates).spec_len() == self.spec_selectables().spec_len(),
        ensures
            final(candidates).wf(),
            final(candidates).spec_len() == old(candidates).spec_len(),
            forall|i: int| #[trigger]
                final(candidates).spec_enabled(i) == old(candidates).spec_enabled(i),
            exists|states: Seq<S>| #[trigger]
                unwatches_all::<W, F, S>(
                    states,
                    *old(candidates),
                    *final(candidates),
                    self.spec_selectables().start(),
                    self.spec_count(),
                    self.spec_identifier(),
                ),
    {
        let count: usize = self.count;
        let ghost start = self.spec_selectables().start();
        let ghost len = self.spec_selectables().spec_len();
        let ghost identifier = self.spec_identifier();
        let ghost mut states: Seq<S> = seq![*candidates];
        let mut witness = self;
        let mut unwatched: usize = 0;
        while unwatched < count
            invariant
                witness.wf(),
                candidates.wf(),
                unwatched <= count <= len,
                len == candidates.spec_len() == old(candidates).spec_len(),
                forall|i: int| #[trigger]
                    candidates.spec_enabled(i) == old(candidates).spec_enabled(i),
                witness.spec_count() == count - unwatched,
                witness.spec_identifier() == identifier,
                witness.spec_selectables().spec_len() == len,
                witness.spec_selectables().left() == len - unwatched,
                witness.spec_selectables().start() == start,
                unwatches_all::<W, F, S>(
                    states,
                    *old(candidates),
                    *candidates,
                    start,
                    unwatched as nat,
                    identifier,
                ),
            decreases count - unwatched,
        {
            let ghost before = states;
            let ghost state = *candidates;
            let index: usize = witness.next().unwrap();
            if candidates.enabled(index) {
                candidates.unwatch_permit(index, witness.identifier());
            }
            proof {
                states = before.push(*candidates);
                assert(unwatches_one::<W, F, S>(state, *candidates, index as int, identifier));
                assert forall|k: int| 0 <= k < unwatched + 1 implies unwatches_one::<W, F, S>(
                    #[trigger] states[k],
                    states[k + 1],
                    Enumerator::visit(start, len, k),
                    identifier,
                ) by {
                    if k < unwatched {
                        assert(states[k] == before[k]);
                    }
                }
            }
            unwatched = unwatched + 1;
        }
        assert(unwatches_all::<W, F, S>(
            states,
            *old(candidates),
            *candidates,
            self.spec_selectables().start(),
            self.spec_count(),
            self.spec_identifier(),
        ));
    }
}

pub open spec fn unwatches_one<W, F: Fn(W, (usize, Permit)) -> bool, S: Select<W, F>>(
    before: S,
    after: S,
    index: int,
    identifier: u64,
) -> bool {
    if before.spec_enabled(index) {
        before.unwatches(index, &after, identifier)
    } else {
        after == before
    }
}

/// Whether `count` candidates have been unwatched in turn from the one at `start`.
pub open spec fn unwatches_all<W, F: Fn(W, (usize, Permit)) -> bool, S: Select<W, F>>(
    states: Seq<S>,
    before: S,
    after: S,
    start: int,
    count: nat,
    identifier: u64,
) -> bool {
    &&& states.len() == count + 1
    &&& states[0] == before
    &&& states.last() == after
    &&& forall|k: int|
        0 <= k < count ==> unwatches_one::<W, F, S>(
            #[trigger] states[k],
            states[k + 1],
            Enumerator::visit(start, before.spec_len(), k),
            identifier,
        )
}

/// Watches the candidates for permits, from a random one on, until one makes the selection ready.
pub fn watch<
    W: Clone,
    F: Fn(W, (usize, Permit)) -> bool,
    S: Select<W, F>,
    R: Fn() -> bool,
>(
    candidates: &mut S,
    random: usize,
    waker: &W,
    identifier: Identifier,
    ready: &R,
    wake: &F,
) -> (witness: Witness)
    requires
        forall|waker: W, selection: (usize, Permit)| #[trigger]
            call_requires(*wake, (waker, selection)),
        call_requires(*ready, ()),
        old(candidates).wf(),
        old(candidates).spec_len() > 0,
    ensures
        final(candidates).wf(),
        final(candidates).spec_len() == old(candidates).spec_len(),
        forall|i: int| #[trigger] final(candidates).spec_enabled(i) == old(candidates).spec_enabled(i),
        witness.wf(),
        witness.spec_selectables().spec_len() == old(candidates).spec_len(),
        witness.spec_selectables().left() == old(candidates).spec_len(),
        witness.spec_selectables().start() == random as int % old(candidates).spec_len() as int,
        witness.spec_identifier() == identifier@,
        exists|watching: Watching<S>|
            {
                &&& #[trigger] watching.watches::<W, F>(
                    *old(candidates),
                    *final(candidates),
                    witness.spec_selectables().start(),
                    *waker,
                    identifier@,
                    *wake,
                )
                &&& watching.stops(witness.spec_count(), old(candidates).spec_len(), *ready)
            },
{
    let len: usize = candidates.len();
    let ghost id = identifier@;
    let mut watcher = Watcher::new(random, len, identifier);
    let ghost start = watcher.spec_selectables().start();
    let mut checked: usize = 0;
    let ghost mut watching: Watching<S> = Watching { states: seq![*candidates], answers: Seq::empty() };
    while checked < len
        invariant
            forall|waker: W, selection: (usize, Permit)| #[trigger]
                call_requires(*wake, (waker, selection)),
            call_requires(*ready, ()),
            candidates.wf(),
            checked <= len,
            len == candidates.spec_len() == old(candidates).spec_len(),
            forall|i: int| #[trigger] candidates.spec_enabled(i) == old(candidates).spec_enabled(i),
            watcher.wf(),
            watcher.spec_checked() == checked,
            watcher.spec_identifier() == id,
            watcher.spec_selectables().spec_len() == len,
            watcher.spec_selectables().left() == len - checked,
            watcher.spec_selectables().start() == start,
            id == identifier@,
            start == random as int % len as int,
            watching.answers.len() == checked,
            watching.watches::<W, F>(
                *old(candidates),
                *candidates,
                start,
                *waker,
                identifier@,
                *wake,
            ),
            forall|k: int|
                0 <= k < checked && (#[trigger] watching.answers[k]) == Some(true)
                    ==> call_ensures(*ready, (), false),
        decreases len - checked,
    {
        let ghost before = watching;
        let ghost state = *candidates;
        let index: usize = watcher.next().unwrap();
        if candidates.enabled(index) {
            let selector = watcher.selector(index, waker.clone());
            let ghost given = selector;
            let watched = candidates.watch_permit(index, selector, wake);
            proof {
                watching = before.and(*candidates, Some(watched));
                assert(cloned(*waker, given.spec_waker()));
                assert(state.watches(index as int, candidates, given, *wake, Some(watched)->0));
                assert(given.spec_index() == index && given.spec_identifier() == identifier@);
                assert(Watching::<S>::watches_one::<W, F>(
                    state,
                    *candidates,
                    index as int,
                    *waker,
                    identifier@,
                    *wake,
                    Some(watched),
                ));
                before.lemma_and::<W, F>(
                    *old(candidates),
                    state,
                    *candidates,
                    start,
                    *waker,
                    identifier@,
                    *wake,
                    Some(watched),
                );
                assert forall|k: int|
                    0 <= k < checked && (#[trigger] watching.answers[k]) == Some(
                        true,
                    ) implies call_ensures(*ready, (), false) by {
                    assert(before.answers[k] == watching.answers[k]);
                }
            }
            if watched && ready() {
                assert(watching.stops(checked as nat, len as nat, *ready));
                assert(watching.watches::<W, F>(
                    *old(candidates),
                    *candidates,
                    start,
                    *waker,
                    identifier@,
                    *wake,
                ));
                return watcher.finish();
            }
        } else {
            proof {
                watching = before.and(*candidates, None);
                before.lemma_and::<W, F>(
                    *old(candidates),
                    state,
                    *candidates,
                    start,
                    *waker,
                    identifier@,
                    *wake,
                    None,
                );
                assert forall|k: int|
                    0 <= k < checked && (#[trigger] watching.answers[k]) == Some(
                        true,
                    ) implies call_ensures(*ready, (), false) by {
                    assert(before.answers[k] == watching.answers[k]);
                }
            }
        }
        watcher.pass();
        checked = checked + 1;
    }
    assert(watching.stops(checked as nat, len as nat, *ready));
    assert(watching.watches::<W, F>(
        *old(candidates),
        *candidates,
        start,
        *waker,
        identifier@,
        *wake,
    ));
    watcher.finish()
}

/// What a selection with optional `default` and `complete` cases runs.
pub enum Branch {
    /// The case of the candidate at `index`, with its permit.
    Case { index: usize, permit: Permit },
    Default,
    Complete,
    /// There is nothing to run: all candidates are disabled or completed.
    Panic,
}

/// Message for [Branch::Panic].
pub const NOTHING_TO_SELECT: &'static str =
    "all selectables are disabled or completed and there is no `default` or `complete`";

/// Case to run after a selection that does not wait, since it has a `default` case: `complete` if
/// all candidates are disabled or completed, and `default` in its absence or if nothing is ready.
pub fn branch_or_default(
    result: Result<(usize, Permit), TrySelectError>,
    complete: bool,
) -> (branch: Branch)
    ensures
        result matches Ok((index, permit)) ==> branch == (Branch::Case { index, permit }),
        result == Err::<(usize, Permit), _>(TrySelectError::Completed) && complete ==> branch
            == Branch::Complete,
        result is Err && !(result == Err::<(usize, Permit), _>(TrySelectError::Completed)
            && complete) ==> branch == Branch::Default,
{
    match result {
        Ok((index, permit)) => Branch::Case { index, permit },
        Err(TrySelectError::Completed) => if complete {
            Branch::Complete
        } else {
            Branch::Default
        },
        Err(TrySelectError::WouldBlock) => Branch::Default,
    }
}

/// Case to run after a selection that waits, since it has no `default` case.
pub fn branch(selection: Option<(usize, Permit)>, complete: bool) -> (branch: Branch)
    ensures
        selection matches Some((index, permit)) ==> branch == (Branch::Case { index, permit }),
        selection is None ==> branch == if complete {
            Branch::Complete
        } else {
            Branch::Panic
        },
{
    match selection {
        Some((index, permit)) => Branch::Case { index, permit },
        None => if complete {
            Branch::Complete
        } else {
            Branch::Panic
        },
    }
}

/// A selection is completed only if every candidate is disabled or completed.
pub proof fn law_completed_only_if_all<S>(asked: Asked<S>, start: int, len: nat, index: int)
    requires
        0 <= start < len,
        0 <= index < len,
        selected(asked, start, len, Err(TrySelectError::Completed)),
    ensures
        exists|k: int|
            {
                &&& 0 <= k < len
                &&& Enumerator::visit(start, len, k) == index
                &&& (#[trigger] asked.answers[k]) is None || asked.answers[k] == Some(
                    Err::<Permit, _>(TrySelectError::Completed),
                )
            },
{
    law_visits_each_once(start, len, index);
    let k = choose|k: int| 0 <= k < len && #[trigger] Enumerator::visit(start, len, k) == index;
    let answer = asked.answers[k];
    assert(!(answer is Some && answer->0 is Ok));
    if answer is Some {
        assert(answer != Some(Err::<Permit, _>(TrySelectError::WouldBlock)));
        assert(answer->0->Err_0 == TrySelectError::Completed);
    }
}

/// A permit gives back the values that it was constructed with. One of no value in particular is that
/// of zero.
pub proof fn law_permit_values(
    value: usize,
    attendant: usize,
    permit: Permit,
    compound: Permit,
    default: Permit,
    again: usize,
    values: (usize, usize),
    zero: usize,
)
    requires
        call_ensures(Permit::with_primitive, (value,), permit),
        call_ensures(Permit::into_primitive, (permit,), again),
        call_ensures(Permit::with_compound, (value, attendant), compound),
        call_ensures(Permit::into_compound, (compound,), values),
        call_ensures(<Permit as Default>::default, (), default),
        call_ensures(Permit::into_primitive, (default,), zero),
    ensures
        again == value,
        values == (value, attendant),
        zero == 0,
{
}

/// A selector tells the waker of its selection which candidate has which permit, and belongs to the
/// selection that it was constructed for and to no other.
pub proof fn law_selector<W>(
    raw: u64,
    other: u64,
    identifier: Identifier,
    copied: Identifier,
    others: Identifier,
    index: usize,
    waker: W,
    selector: Selector<W>,
    permit: Permit,
    wakeup: (W, (usize, Permit)),
    identified: (bool, bool),
    equal: (bool, bool),
)
    requires
        call_ensures(Identifier::new, (raw,), identifier),
        call_ensures(Identifier::copy, (&identifier,), copied),
        call_ensures(Identifier::new, (other,), others),
        call_ensures(Identifier::equals, (&identifier, &copied), equal.0),
        call_ensures(Identifier::equals, (&identifier, &others), equal.1),
        call_ensures(Selector::<W>::new, (index, waker, identifier), selector),
        call_ensures(Selector::<W>::apply, (selector, permit), wakeup),
        call_ensures(Selector::<W>::identify, (&selector, &copied), identified.0),
        call_ensures(Selector::<W>::identify, (&selector, &others), identified.1),
    ensures
        wakeup == (waker, (index, permit)),
        equal.0 && identified.0,
        equal.1 <==> raw == other,
        identified.1 <==> raw == other,
{
}

/// An enumeration begins with a random candidate, goes to the next each time, from the last to the
/// first, and ends when it has visited as many as there are. Begun again, it goes the same way.
pub proof fn law_enumerates(
    random: usize,
    len: usize,
    first: &mut Enumerator,
    second: &mut Enumerator,
    visited: Option<usize>,
    following: Option<usize>,
    again: Enumerator,
    repeated: &mut Enumerator,
    revisited: Option<usize>,
)
    requires
        0 < len,
        call_ensures(Enumerator::new, (random, len), *old(first)),
        call_ensures(Enumerator::next, (first,), visited),
        *old(second) == *final(first),
        call_ensures(Enumerator::next, (second,), following),
        call_ensures(Enumerator::again, (final(second),), again),
        *old(repeated) == again,
        call_ensures(Enumerator::next, (repeated,), revisited),
    ensures
        visited == Some((random % len) as usize),
        following is Some <==> len > 1,
        following is Some ==> following->0 == (visited->0 + 1) % len as int,
        final(first).left() == len - 1,
        final(second).left() == if len > 1 {
            len - 2
        } else {
            0
        },
        revisited == visited,
{
    let start = random as int % len as int;
    vstd::arithmetic::div_mod::lemma_mod_bound(random as int, len as int);
    vstd::arithmetic::div_mod::lemma_small_mod(start as nat, len as nat);
    assert(Enumerator::visit(start, len as nat, 0) == start);
    assert(Enumerator::visit(start, len as nat, 1) == (start + 1) % len as int);
}

/// Any two candidates that are visited one after the other are next to each other, and a visit leaves
/// one candidate less to visit.
pub proof fn law_enumerates_in_turn(
    first: &mut Enumerator,
    second: &mut Enumerator,
    visited: Option<usize>,
    following: Option<usize>,
)
    requires
        old(first).wf(),
        call_ensures(Enumerator::next, (first,), visited),
        *old(second) == *final(first),
        call_ensures(Enumerator::next, (second,), following),
    ensures
        visited is Some <==> old(first).left() > 0,
        visited is Some ==> final(first).left() + 1 == old(first).left(),
        visited is Some ==> visited->0 < old(first).spec_len(),
        following is Some ==> following->0 == if visited->0 + 1 == old(first).spec_len() {
            0
        } else {
            visited->0 + 1
        },
{
    let len = old(first).spec_len() as int;
    let start = old(first).start();
    let k = len - old(first).left();
    if old(first).left() > 1 {
        assert(visited->0 == (start + k) % len);
        assert(following->0 == (start + k + 1) % len);
        let q = (start + k) / len;
        let r = (start + k) % len;
        vstd::arithmetic::div_mod::lemma_fundamental_div_mod(start + k, len);
        vstd::arithmetic::div_mod::lemma_mod_bound(start + k, len);
        if r + 1 == len {
            assert(start + k + 1 == len * (q + 1)) by (nonlinear_arith)
                requires
                    start + k == len * q + r,
                    r + 1 == len,
            ;
            vstd::arithmetic::div_mod::lemma_fundamental_div_mod_converse(
                start + k + 1,
                len,
                q + 1,
                0,
            );
        } else {
            assert(start + k + 1 == q * len + (r + 1)) by (nonlinear_arith)
                requires
                    start + k == len * q + r,
            ;
            vstd::arithmetic::div_mod::lemma_fundamental_div_mod_converse(
                start + k + 1,
                len,
                q,
                r + 1,
            );
        }
    }
}

/// What is never ready is as good as completed, and nobody waits for it.
pub proof fn law_never_is_ready<W, F: Fn(W, (usize, Permit)) -> bool>(
    never: Never,
    selecting: &mut Never,
    answer: Result<Permit, TrySelectError>,
    watching: &mut Never,
    selector: Selector<W>,
    wake: &F,
    watched: bool,
    parallel: bool,
)
    requires
        call_ensures(self::never, (), never),
        call_ensures(<Never as Selectable<W, F>>::select_permit, (selecting,), answer),
        call_ensures(
            <Never as Selectable<W, F>>::watch_permit,
            (watching, selector, wake),
            watched,
        ),
        call_ensures(<Never as Selectable<W, F>>::parallel, (&never,), parallel),
    ensures
        answer == Err::<Permit, _>(TrySelectError::Completed),
        !watched,
        !parallel,
{
}

/// What is ready has a permit until its value is taken, once, and is completed from then on. Who
/// watches it while it is ready is told so at once.
pub proof fn law_ready_once<T, W, F: Fn(W, (usize, Permit)) -> bool>(
    value: T,
    selecting: &mut Ready<T>,
    watching: &mut Ready<T>,
    unwatching: &mut Ready<T>,
    consuming: &mut Ready<T>,
    completed: &mut Ready<T>,
    rewatching: &mut Ready<T>,
    answer: Result<Permit, TrySelectError>,
    selector: Selector<W>,
    identifier: &Identifier,
    wake: &F,
    watched: (bool, bool),
    permit: Permit,
    result: T,
    finished: Result<Permit, TrySelectError>,
)
    requires
        call_ensures(ready::<T>, (value,), *old(selecting)),
        call_ensures(<Ready<T> as Selectable<W, F>>::select_permit, (selecting,), answer),
        *old(watching) == *final(selecting),
        call_ensures(
            <Ready<T> as Selectable<W, F>>::watch_permit,
            (watching, selector, wake),
            watched.0,
        ),
        *old(unwatching) == *final(watching),
        call_ensures(
            <Ready<T> as Selectable<W, F>>::unwatch_permit,
            (unwatching, identifier),
            (),
        ),
        *old(consuming) == *final(unwatching),
        call_ensures(<Ready<T> as PermitReader>::consume_permit, (consuming, permit), result),
        *old(completed) == *final(consuming),
        call_ensures(<Ready<T> as Selectable<W, F>>::select_permit, (completed,), finished),
        *old(rewatching) == *final(completed),
        call_ensures(
            <Ready<T> as Selectable<W, F>>::watch_permit,
            (rewatching, selector, wake),
            watched.1,
        ),
    ensures
        answer is Ok,
        answer->Ok_0@.primitive == 0 && answer->Ok_0@.attendant is None,
        watched == (true, false),
        exists|told: Permit, first: bool|
            told@.primitive == 0 && told@.attendant is None && #[trigger] call_ensures(
                *wake,
                (selector.spec_waker(), (selector.spec_index(), told)),
                first,
            ),
        result == value,
        finished == Err::<Permit, _>(TrySelectError::Completed),
{
    assert(applied_ready(selector, *wake));
}

/// A row of values has a permit while there is one, and gives them in turn.
pub proof fn law_values_in_turn<T, W, F: Fn(W, (usize, Permit)) -> bool>(
    selecting: &mut VecDeque<T>,
    watching: &mut VecDeque<T>,
    unwatching: &mut VecDeque<T>,
    consuming: &mut VecDeque<T>,
    answer: Result<Permit, TrySelectError>,
    selector: Selector<W>,
    identifier: &Identifier,
    wake: &F,
    watched: bool,
    permit: Permit,
    result: T,
    parallel: bool,
)
    requires
        call_ensures(<VecDeque<T> as Selectable<W, F>>::select_permit, (selecting,), answer),
        call_ensures(
            <VecDeque<T> as Selectable<W, F>>::watch_permit,
            (watching, selector, wake),
            watched,
        ),
        call_ensures(
            <VecDeque<T> as Selectable<W, F>>::unwatch_permit,
            (unwatching, identifier),
            (),
        ),
        call_ensures(<VecDeque<T> as PermitReader>::consume_permit, (consuming, permit), result),
        old(consuming)@.len() > 0,
        call_ensures(<VecDeque<T> as Selectable<W, F>>::parallel, (old(selecting),), parallel),
    ensures
        final(selecting)@ == old(selecting)@,
        answer is Ok <==> old(selecting)@.len() > 0,
        answer is Ok ==> answer->Ok_0@.primitive == 0 && answer->Ok_0@.attendant is None,
        answer is Err ==> answer->Err_0 is Completed,
        final(watching)@ == old(watching)@,
        watched <==> old(watching)@.len() > 0,
        watched ==> exists|told: Permit, first: bool|
            told@.primitive == 0 && told@.attendant is None && #[trigger] call_ensures(
                *wake,
                (selector.spec_waker(), (selector.spec_index(), told)),
                first,
            ),
        final(unwatching)@ == old(unwatching)@,
        old(consuming)@ == seq![result] + final(consuming)@,
        !parallel,
{
    if watched {
        assert(applied_ready(selector, *wake));
    }
    assert(old(consuming)@ =~= seq![old(consuming)@[0]] + old(consuming)@.skip(1));
}

/// An option has a permit while there is a value, and gives it once.
pub proof fn law_option_once<T, W, F: Fn(W, (usize, Permit)) -> bool>(
    selecting: &mut Option<T>,
    watching: &mut Option<T>,
    unwatching: &mut Option<T>,
    consuming: &mut Option<T>,
    answer: Result<Permit, TrySelectError>,
    selector: Selector<W>,
    identifier: &Identifier,
    wake: &F,
    watched: bool,
    permit: Permit,
    result: T,
    parallel: bool,
)
    requires
        call_ensures(<Option<T> as Selectable<W, F>>::select_permit, (selecting,), answer),
        call_ensures(
            <Option<T> as Selectable<W, F>>::watch_permit,
            (watching, selector, wake),
            watched,
        ),
        call_ensures(
            <Option<T> as Selectable<W, F>>::unwatch_permit,
            (unwatching, identifier),
            (),
        ),
        call_ensures(<Option<T> as PermitReader>::consume_permit, (consuming, permit), result),
        *old(consuming) is Some,
        call_ensures(<Option<T> as Selectable<W, F>>::parallel, (old(selecting),), parallel),
    ensures
        *final(selecting) == *old(selecting),
        answer is Ok <==> *old(selecting) is Some,
        answer is Ok ==> answer->Ok_0@.primitive == 0 && answer->Ok_0@.attendant is None,
        answer is Err ==> answer->Err_0 is Completed,
        *final(watching) == *old(watching),
        watched <==> *old(watching) is Some,
        watched ==> exists|told: Permit, first: bool|
            told@.primitive == 0 && told@.attendant is None && #[trigger] call_ensures(
                *wake,
                (selector.spec_waker(), (selector.spec_index(), told)),
                first,
            ),
        *final(unwatching) == *old(unwatching),
        *old(consuming) == Some(result),
        *final(consuming) is None,
        !parallel,
{
    if watched {
        assert(applied_ready(selector, *wake));
    }
}

/// A case runs with the permit that was selected for it. With nothing selected, `complete` runs where
/// everything is completed, and otherwise `default` if nothing is to be waited for. There is nothing
/// to run if all is completed and neither of them is there.
pub proof fn law_branches(
    index: usize,
    permit: Permit,
    complete: bool,
    tried: (Branch, Branch, Branch),
    waited: (Branch, Branch),
)
    requires
        call_ensures(branch_or_default, (Ok((index, permit)), complete), tried.0),
        call_ensures(branch_or_default, (Err(TrySelectError::Completed), complete), tried.1),
        call_ensures(branch_or_default, (Err(TrySelectError::WouldBlock), complete), tried.2),
        call_ensures(branch, (Some((index, permit)), complete), waited.0),
        call_ensures(branch, (None, complete), waited.1),
    ensures
        tried.0 == (Branch::Case { index, permit }),
        waited.0 == (Branch::Case { index, permit }),
        tried.1 is Complete <==> complete,
        tried.1 is Default <==> !complete,
        tried.2 is Default,
        waited.1 is Complete <==> complete,
        waited.1 is Panic <==> !complete,
{
}

/// Asking takes note of who would have a permit later: having asked everybody in vain, that is why
/// to wait, and otherwise all are completed. A permit is selected as it was answered.
pub proof fn law_answers(
    random: usize,
    len: usize,
    permit: Permit,
    new: Trying,
    before: &mut Trying,
    between: &mut Trying,
    after: &mut Trying,
    answered: (Option<Permit>, Option<Permit>, Option<Permit>),
    errors: (TrySelectError, TrySelectError, TrySelectError, TrySelectError),
    asking: &mut Trying,
    index: Option<usize>,
)
    requires
        0 < len,
        call_ensures(Trying::new, (random, len), new),
        *old(asking) == new,
        call_ensures(Trying::next, (asking,), index),
        call_ensures(Trying::finish, (new,), errors.3),
        *old(before) == new,
        call_ensures(Trying::answer, (before, Err(TrySelectError::Completed)), answered.0),
        call_ensures(Trying::finish, (*final(before),), errors.0),
        call_ensures(Trying::answer, (between, Err(TrySelectError::WouldBlock)), answered.1),
        call_ensures(Trying::finish, (*final(between),), errors.1),
        *old(after) == *final(between),
        call_ensures(Trying::answer, (after, Ok(permit)), answered.2),
        call_ensures(Trying::finish, (*final(after),), errors.2),
    ensures
        answered.0 is None && answered.1 is None,
        answered.2 == Some(permit),
        errors.3 is Completed,
        errors.0 is Completed,
        errors.1 is WouldBlock,
        errors.2 is WouldBlock,
        final(before).spec_selectables() == new.spec_selectables(),
        final(between).spec_selectables() == old(between).spec_selectables(),
        new.spec_selectables().spec_len() == len,
        new.spec_selectables().left() == len,
        new.spec_selectables().start() == random % len,
        index == Some((random % len) as usize),
        final(asking).spec_selectables().left() == len - 1,
{
    let start = random as int % len as int;
    vstd::arithmetic::div_mod::lemma_mod_bound(random as int, len as int);
    vstd::arithmetic::div_mod::lemma_small_mod(start as nat, len as nat);
    assert(Enumerator::visit(start, len as nat, 0) == start);
}

/// The turn in which a candidate is visited.
proof fn lemma_turn(start: int, len: nat, index: int) -> (turn: int)
    requires
        0 <= start < len,
        0 <= index < len,
    ensures
        0 <= turn < len,
        turn == (index + len - start) % len as int,
        Enumerator::visit(start, len, turn) == index,
{
    law_visits_each_once(start, len, index);
    let turn = if index >= start {
        index - start
    } else {
        index - start + len
    };
    if index >= start {
        vstd::arithmetic::div_mod::lemma_mod_add_multiples_vanish(index - start, len as int);
        vstd::arithmetic::div_mod::lemma_small_mod((index - start) as nat, len);
        vstd::arithmetic::div_mod::lemma_small_mod(index as nat, len);
    } else {
        vstd::arithmetic::div_mod::lemma_small_mod(turn as nat, len);
        vstd::arithmetic::div_mod::lemma_mod_add_multiples_vanish(index, len as int);
        vstd::arithmetic::div_mod::lemma_small_mod(index as nat, len);
    }
    turn
}

proof fn lemma_asked<W, F: Fn(W, (usize, Permit)) -> bool, C: Selectable<W, F>>(
    asked: Asked<Vec<Option<C>>>,
    before: Vec<Option<C>>,
    after: Vec<Option<C>>,
    start: int,
    k: int,
)
    requires
        asked.asks::<W, F>(before, after, start),
        0 <= k <= asked.answers.len(),
    ensures
        asked.states[k]@.len() == before@.len(),
        forall|i: int|
            0 <= i < before@.len() ==> ((#[trigger] asked.states[k]@[i]) is Some <==> before@[i] is Some),
    decreases k,
{
    if k > 0 {
        lemma_asked::<W, F, C>(asked, before, after, start, k - 1);
        let answer = asked.answers[k - 1];
        assert(Asked::<Vec<Option<C>>>::asks_one::<W, F>(
            asked.states[k - 1],
            asked.states[k],
            Enumerator::visit(start, before@.len(), k - 1),
            answer,
        ));
    }
}

/// What was asked in one turn, and answered.
proof fn lemma_asked_one<W, F: Fn(W, (usize, Permit)) -> bool, C: Selectable<W, F>>(
    asked: Asked<Vec<Option<C>>>,
    before: Vec<Option<C>>,
    after: Vec<Option<C>>,
    start: int,
    k: int,
)
    requires
        asked.asks::<W, F>(before, after, start),
        0 <= k < asked.answers.len(),
        0 <= Enumerator::visit(start, before@.len(), k) < before@.len(),
    ensures
        ({
            let i = Enumerator::visit(start, before@.len(), k);
            &&& before@[i] is None ==> asked.answers[k] is None
            &&& before@[i] is Some ==> asked.answers[k] is Some && exists|one: C, left: C|
                #[trigger] one.selects(&left, asked.answers[k]->0) && asked.states[k + 1]@[i]
                    == Some(left)
        }),
{
    lemma_asked::<W, F, C>(asked, before, after, start, k);
    let i = Enumerator::visit(start, before@.len(), k);
    let state = asked.states[k];
    assert(Asked::<Vec<Option<C>>>::asks_one::<W, F>(
        state,
        asked.states[k + 1],
        i,
        asked.answers[k],
    ));
    assert(state@[i] is Some <==> before@[i] is Some);
    if before@[i] is Some {
        let left = choose|left: C|
            asked.states[k + 1]@ == state@.update(i, Some(left)) && #[trigger] state@[i]->0.selects(
                &left,
                asked.answers[k]->0,
            );
        assert(state@[i]->0.selects(&left, asked.answers[k]->0));
    }
}

spec fn refused<W, F: Fn(W, (usize, Permit)) -> bool, C: Selectable<W, F>>(
    err: TrySelectError,
) -> bool {
    exists|one: C, left: C| #[trigger] one.selects(&left, Err(err))
}

proof fn lemma_tries<W, F: Fn(W, (usize, Permit)) -> bool, C: Selectable<W, F>>(
    before: Vec<Option<C>>,
    after: Vec<Option<C>>,
    start: int,
    result: Result<(usize, Permit), TrySelectError>,
    index: int,
)
    requires
        tries::<W, F, Vec<Option<C>>>(before, after, start, result),
        0 <= start < before@.len(),
        0 <= index < before@.len(),
    ensures
        result matches Ok((i, permit)) ==> {
            &&& i < before@.len()
            &&& before@[i as int] is Some
            &&& exists|one: C, left: C|
                #[trigger] one.selects(&left, Ok(permit)) && after@[i as int] == Some(left)
        },
        result matches Err(err) ==> {
            &&& before@[index] is Some ==> refused::<W, F, C>(TrySelectError::Completed) || refused::<
                W,
                F,
                C,
            >(err)
            &&& err is WouldBlock ==> refused::<W, F, C>(err)
            &&& err is WouldBlock ==> exists|i: int|
                0 <= i < before@.len() && (#[trigger] before@[i]) is Some
        },
{
    let len = before@.len();
    let asked = choose|asked: Asked<Vec<Option<C>>>| #[trigger]
        asked.asks::<W, F>(before, after, start) && selected(asked, start, len, result);
    let turn = lemma_turn(start, len, index);
    match result {
        Ok((i, permit)) => {
            let last = asked.answers.len() - 1;
            lemma_asked_one::<W, F, C>(asked, before, after, start, last);
        },
        Err(err) => {
            lemma_asked_one::<W, F, C>(asked, before, after, start, turn);
            if before@[index] is Some {
                assert(!(asked.answers[turn]->0 is Ok));
                let answer = asked.answers[turn]->0;
                let (one, left) = choose|one: C, left: C| #[trigger] one.selects(&left, answer);
                assert(one.selects(&left, Err(answer->Err_0)));
                if err is Completed {
                    assert(asked.answers[turn] != Some(
                        Err::<Permit, _>(TrySelectError::WouldBlock),
                    ));
                    assert(answer->Err_0 is Completed);
                }
            }
            if err is WouldBlock {
                let k = choose|k: int|
                    0 <= k < asked.answers.len() && #[trigger] asked.answers[k] == Some(
                        Err::<Permit, _>(TrySelectError::WouldBlock),
                    );
                vstd::arithmetic::div_mod::lemma_mod_bound(start + k, len as int);
                lemma_asked_one::<W, F, C>(asked, before, after, start, k);
                let i = Enumerator::visit(start, len, k);
                assert(before@[i] is Some);
            }
        },
    }
}

/// What is selected is a permit that an enabled candidate has, and it is left as that candidate left
/// it. Nothing is selected only if every enabled candidate had none. Then all are completed if they
/// said so, and only if one would have a permit later is that why.
pub proof fn law_try_select<W, F: Fn(W, (usize, Permit)) -> bool, C: Selectable<W, F>>(
    candidates: &mut Vec<Option<C>>,
    random: usize,
    result: Result<(usize, Permit), TrySelectError>,
    index: int,
)
    requires
        0 <= index < old(candidates)@.len(),
        call_ensures(try_select::<W, F, Vec<Option<C>>>, (candidates, random), result),
    ensures
        final(candidates)@.len() == old(candidates)@.len(),
        result matches Ok((i, permit)) ==> {
            &&& i < old(candidates)@.len()
            &&& old(candidates)@[i as int] is Some
            &&& exists|one: C, left: C|
                #[trigger] one.selects(&left, Ok(permit)) && final(candidates)@[i as int] == Some(
                    left,
                )
        },
        result == Err::<(usize, Permit), _>(TrySelectError::Completed)
            && old(candidates)@[index] is Some ==> exists|one: C, left: C| #[trigger]
            one.selects(&left, Err(TrySelectError::Completed)),
        result == Err::<(usize, Permit), _>(TrySelectError::WouldBlock) ==> exists|one: C, left: C|
            #[trigger] one.selects(&left, Err(TrySelectError::WouldBlock)),
        (forall|i: int| 0 <= i < old(candidates)@.len() ==> (#[trigger] old(candidates)@[i]) is None)
            ==> result == Err::<(usize, Permit), _>(TrySelectError::Completed),
{
    let len = old(candidates)@.len() as int;
    vstd::arithmetic::div_mod::lemma_mod_bound(random as int, len);
    lemma_tries::<W, F, C>(
        *old(candidates),
        *final(candidates),
        random as int % len,
        result,
        index,
    );
}

proof fn lemma_options_asked<T, W, F: Fn(W, (usize, Permit)) -> bool>(
    asked: Asked<Vec<Option<Option<T>>>>,
    before: Vec<Option<Option<T>>>,
    after: Vec<Option<Option<T>>>,
    start: int,
    k: int,
)
    requires
        asked.asks::<W, F>(before, after, start),
        0 <= start < before@.len(),
        0 <= k <= asked.answers.len() <= before@.len(),
    ensures
        asked.states[k]@ == before@,
        k < asked.answers.len() ==> {
            let i = Enumerator::visit(start, before@.len(), k);
            &&& 0 <= i < before@.len()
            &&& asked.answers[k] is None <==> before@[i] is None
            &&& before@[i] is Some ==> (asked.answers[k]->0 is Ok <==> before@[i]->0 is Some)
            &&& asked.answers[k] is Some && asked.answers[k]->0 is Err ==> asked.answers[k]->0->Err_0 is Completed
        },
    decreases k,
{
    let len = before@.len();
    if k > 0 {
        lemma_options_asked::<T, W, F>(asked, before, after, start, k - 1);
        let i = Enumerator::visit(start, len, k - 1);
        let state = asked.states[k - 1];
        let answer = asked.answers[k - 1];
        assert(Asked::<Vec<Option<Option<T>>>>::asks_one::<W, F>(
            state,
            asked.states[k],
            i,
            answer,
        ));
        if state@[i] is Some {
            let one = choose|one: Option<T>|
                asked.states[k]@ == state@.update(i, Some(one)) && #[trigger] <Option<
                    T,
                > as Selectable<W, F>>::selects(&state@[i]->0, &one, answer->0);
            assert(state@.update(i, Some(one)) =~= state@);
        }
    }
    if k < asked.answers.len() {
        let i = Enumerator::visit(start, len, k);
        vstd::arithmetic::div_mod::lemma_mod_bound(start + k, len as int);
        let state = asked.states[k];
        let answer = asked.answers[k];
        assert(Asked::<Vec<Option<Option<T>>>>::asks_one::<W, F>(
            state,
            asked.states[k + 1],
            i,
            answer,
        ));
    }
}

/// Of options, the first one that is enabled and has a value is selected, counted from a random one
/// on and from the last to the first. If there is none, all are completed. No option changes.
pub proof fn law_first_ready_is_selected<T, W, F: Fn(W, (usize, Permit)) -> bool>(
    trying: &mut Vec<Option<Option<T>>>,
    selecting: &mut Vec<Option<Option<T>>>,
    random: usize,
    result: Result<(usize, Permit), TrySelectError>,
    selection: Selecting,
    index: int,
)
    requires
        0 <= index < old(trying)@.len(),
        call_ensures(try_select::<W, F, Vec<Option<Option<T>>>>, (trying, random), result),
        *old(selecting) == *old(trying),
        call_ensures(select::<W, F, Vec<Option<Option<T>>>>, (selecting, random), selection),
    ensures
        final(trying)@ == old(trying)@,
        final(selecting)@ == old(selecting)@,
        result matches Ok((i, permit)) ==> {
            let len = old(trying)@.len() as int;
            let start = random as int % len;
            &&& i < len
            &&& old(trying)@[i as int] is Some && old(trying)@[i as int]->0 is Some
            &&& old(trying)@[index] is Some && old(trying)@[index]->0 is Some ==> (i + len - start)
                % len <= (index + len - start) % len
            &&& selection matches Selecting::Done(Some(selected)) && selected.0 == i
        },
        result is Err ==> {
            &&& result->Err_0 is Completed
            &&& !(old(trying)@[index] is Some && old(trying)@[index]->0 is Some)
            &&& selection matches Selecting::Done(None)
        },
{
    let before = *old(trying);
    let len = before@.len();
    vstd::arithmetic::div_mod::lemma_mod_bound(random as int, len as int);
    let start = random as int % len as int;
    lemma_first_ready::<T, W, F>(before, *final(trying), start, result, index);
    let outcome = match selection {
        Selecting::Done(Some(selected)) => Ok(selected),
        Selecting::Done(None) => Err(TrySelectError::Completed),
        Selecting::Wait { parallel: _ } => Err(TrySelectError::WouldBlock),
    };
    lemma_first_ready::<T, W, F>(before, *final(selecting), start, outcome, index);
    if let Ok((i, _)) = result {
        lemma_first_ready::<T, W, F>(before, *final(selecting), start, outcome, i as int);
        if let Ok((j, _)) = outcome {
            lemma_first_ready::<T, W, F>(before, *final(trying), start, result, j as int);
            let turn = lemma_turn(start, len, i as int);
            let other = lemma_turn(start, len, j as int);
            assert(turn == other);
        }
    } else {
        if let Ok((j, _)) = outcome {
            lemma_first_ready::<T, W, F>(before, *final(trying), start, result, j as int);
        }
    }
}

proof fn lemma_first_ready<T, W, F: Fn(W, (usize, Permit)) -> bool>(
    before: Vec<Option<Option<T>>>,
    after: Vec<Option<Option<T>>>,
    start: int,
    result: Result<(usize, Permit), TrySelectError>,
    index: int,
)
    requires
        tries::<W, F, Vec<Option<Option<T>>>>(before, after, start, result),
        0 <= start < before@.len(),
        0 <= index < before@.len(),
    ensures
        after@ == before@,
        result matches Ok((i, permit)) ==> {
            let len = before@.len() as int;
            &&& i < len
            &&& before@[i as int] is Some && before@[i as int]->0 is Some
            &&& before@[index] is Some && before@[index]->0 is Some ==> (i + len - start) % len <= (
            index + len - start) % len
        },
        result is Err ==> {
            &&& result->Err_0 is Completed
            &&& !(before@[index] is Some && before@[index]->0 is Some)
        },
{
    let len = before@.len();
    let asked = choose|asked: Asked<Vec<Option<Option<T>>>>| #[trigger]
        asked.asks::<W, F>(before, after, start) && selected(asked, start, len, result);
    let turn = lemma_turn(start, len, index);
    lemma_options_asked::<T, W, F>(asked, before, after, start, asked.answers.len() as int);
    match result {
        Ok((i, permit)) => {
            let last = asked.answers.len() - 1;
            lemma_options_asked::<T, W, F>(asked, before, after, start, last);
            let at = lemma_turn(start, len, i as int);
            law_visits_each_once(start, len, i as int);
            assert(at == last);
            if turn < last {
                lemma_options_asked::<T, W, F>(asked, before, after, start, turn);
                assert(asked.answers.drop_last()[turn] == asked.answers[turn]);
            }
        },
        Err(err) => {
            lemma_options_asked::<T, W, F>(asked, before, after, start, turn);
            assert(!(asked.answers[turn] is Some && asked.answers[turn]->0 is Ok));
            if asked.blocked() {
                let k = choose|k: int|
                    0 <= k < asked.answers.len() && #[trigger] asked.answers[k] == Some(
                        Err::<Permit, _>(TrySelectError::WouldBlock),
                    );
                lemma_options_asked::<T, W, F>(asked, before, after, start, k);
            }
        },
    }
}

/// A selection waits only if nobody has a permit and somebody would have one later, and is woken by
/// others if one of the enabled candidates is. Otherwise it selects a permit that an enabled
/// candidate has, or nothing if every enabled one is completed.
pub proof fn law_select<W, F: Fn(W, (usize, Permit)) -> bool, C: Selectable<W, F>>(
    candidates: &mut Vec<Option<C>>,
    random: usize,
    selecting: Selecting,
    index: int,
)
    requires
        0 <= index < old(candidates)@.len(),
        call_ensures(select::<W, F, Vec<Option<C>>>, (candidates, random), selecting),
    ensures
        final(candidates)@.len() == old(candidates)@.len(),
        selecting matches Selecting::Done(Some((i, permit))) ==> {
            &&& i < old(candidates)@.len()
            &&& old(candidates)@[i as int] is Some
            &&& exists|one: C, left: C|
                #[trigger] one.selects(&left, Ok(permit)) && final(candidates)@[i as int] == Some(
                    left,
                )
        },
        selecting matches Selecting::Done(None) ==> (old(candidates)@[index] is Some ==> exists|
            one: C,
            left: C,
        | #[trigger] one.selects(&left, Err(TrySelectError::Completed))),
        selecting is Wait ==> exists|one: C, left: C| #[trigger]
            one.selects(&left, Err(TrySelectError::WouldBlock)),
        selecting matches Selecting::Wait { parallel } ==> {
            &&& final(candidates)@[index] is Some && final(candidates)@[index]->0.spec_parallel()
                ==> parallel
            &&& parallel ==> exists|i: int|
                0 <= i < final(candidates)@.len() && (#[trigger] final(candidates)@[i]) is Some
                    && final(candidates)@[i]->0.spec_parallel()
        },
{
    let len = old(candidates)@.len() as int;
    vstd::arithmetic::div_mod::lemma_mod_bound(random as int, len);
    let outcome = match selecting {
        Selecting::Done(Some(selected)) => Ok(selected),
        Selecting::Done(None) => Err(TrySelectError::Completed),
        Selecting::Wait { parallel: _ } => Err(TrySelectError::WouldBlock),
    };
    lemma_tries::<W, F, C>(
        *old(candidates),
        *final(candidates),
        random as int % len,
        outcome,
        index,
    );
    if let Selecting::Wait { parallel } = selecting {
        let after = *final(candidates);
        if after@[index] is Some && after@[index]->0.spec_parallel() {
            assert(<Vec<Option<C>> as Select<W, F>>::spec_enabled(&after, index));
        }
        if parallel {
            let i = choose|i: int|
                0 <= i < after@.len() && #[trigger] <Vec<Option<C>> as Select<
                    W,
                    F,
                >>::spec_enabled(&after, i) && <Vec<Option<C>> as Select<W, F>>::spec_parallel(
                    &after,
                    i,
                );
            assert(after@[i] is Some);
        }
    }
}

/// Whether a step leaves all candidates but one as they were.
spec fn touches_one<C>(before: Seq<Option<C>>, after: Seq<Option<C>>, index: int) -> bool {
    &&& after.len() == before.len()
    &&& forall|i: int| 0 <= i < before.len() && i != index ==> #[trigger] after[i] == before[i]
}

/// A candidate is left as it is in turns of others.
proof fn lemma_left<C>(
    states: Seq<Vec<Option<C>>>,
    start: int,
    len: nat,
    turn: int,
    end: int,
)
    requires
        0 <= start < len,
        0 <= turn < end <= len,
        end < states.len(),
        forall|k: int|
            0 <= k < end ==> touches_one(
                (#[trigger] states[k])@,
                states[k + 1]@,
                Enumerator::visit(start, len, k),
            ),
        states[turn + 1]@.len() == len,
    ensures
        states[end]@.len() == len,
        states[end]@[Enumerator::visit(start, len, turn)] == states[turn + 1]@[Enumerator::visit(
            start,
            len,
            turn,
        )],
    decreases end,
{
    let index = Enumerator::visit(start, len, turn);
    vstd::arithmetic::div_mod::lemma_mod_bound(start + turn, len as int);
    if turn + 1 < end {
        lemma_left(states, start, len, turn, end - 1);
        law_visits_each_once(start, len, index);
        assert(Enumerator::visit(start, len, end - 1) != index);
        assert(touches_one(
            states[end - 1]@,
            states[end - 1 + 1]@,
            Enumerator::visit(start, len, end - 1),
        ));
        assert(states[end]@[index] == states[end - 1]@[index]);
    }
}

proof fn lemma_watched<W: Clone, F: Fn(W, (usize, Permit)) -> bool, C: Selectable<W, F>>(
    watching: Watching<Vec<Option<C>>>,
    before: Vec<Option<C>>,
    after: Vec<Option<C>>,
    start: int,
    waker: W,
    identifier: u64,
    wake: F,
    k: int,
)
    requires
        watching.watches::<W, F>(before, after, start, waker, identifier, wake),
        0 <= k <= watching.answers.len(),
    ensures
        watching.states[k]@.len() == before@.len(),
        forall|i: int|
            0 <= i < before@.len() ==> ((#[trigger] watching.states[k]@[i]) is Some <==> before@[i] is Some),
    decreases k,
{
    if k > 0 {
        lemma_watched::<W, F, C>(watching, before, after, start, waker, identifier, wake, k - 1);
        let answer = watching.answers[k - 1];
        assert(Watching::<Vec<Option<C>>>::watches_one::<W, F>(
            watching.states[k - 1],
            watching.states[k],
            Enumerator::visit(start, before@.len(), k - 1),
            waker,
            identifier,
            wake,
            answer,
        ));
    }
}

/// Watching goes on, from a random candidate and from the last to the first, until one makes the
/// selection ready. Every enabled one on the way is watched, with a selector of its own position and
/// of this selection, that wakes its waker. The selection witnesses those that did not make it ready,
/// which are all if none does.
pub proof fn law_watch<
    W: Clone,
    F: Fn(W, (usize, Permit)) -> bool,
    C: Selectable<W, F>,
    R: Fn() -> bool,
>(
    candidates: &mut Vec<Option<C>>,
    random: usize,
    waker: &W,
    identifier: Identifier,
    ready: &R,
    wake: &F,
    witness: Witness,
    index: int,
)
    requires
        call_ensures(
            watch::<W, F, Vec<Option<C>>, R>,
            (candidates, random, waker, identifier, ready, wake),
            witness,
        ),
        0 <= index < old(candidates)@.len(),
    ensures
        final(candidates)@.len() == old(candidates)@.len(),
        witness.spec_identifier() == identifier@,
        witness.spec_selectables().start() == random as int % old(candidates)@.len() as int,
        witness.spec_selectables().spec_len() == old(candidates)@.len(),
        witness.spec_selectables().left() == old(candidates)@.len(),
        witness.spec_count() <= old(candidates)@.len(),
        !call_ensures(*ready, (), true) ==> witness.spec_count() == old(candidates)@.len(),
        ({
            let len = old(candidates)@.len() as int;
            let turn = (index + len - random as int % len) % len;
            &&& old(candidates)@[index] is Some && turn <= witness.spec_count() ==> exists|
                one: C,
                left: C,
                selector: Selector<W>,
                watched: bool,
            |
                {
                    &&& #[trigger] one.watches(&left, selector, *wake, watched)
                    &&& selector.spec_index() == index
                    &&& selector.spec_identifier() == identifier@
                    &&& cloned(*waker, selector.spec_waker())
                    &&& final(candidates)@[index] == Some(left)
                    &&& turn == witness.spec_count() ==> watched
                    &&& turn < witness.spec_count() && watched ==> call_ensures(*ready, (), false)
                }
            &&& turn == witness.spec_count() ==> old(candidates)@[index] is Some
        }),
{
    let before = *old(candidates);
    let after = *final(candidates);
    let len = before@.len();
    vstd::arithmetic::div_mod::lemma_mod_bound(random as int, len as int);
    let start = random as int % len as int;
    let watching = choose|watching: Watching<Vec<Option<C>>>|
        {
            &&& #[trigger] watching.watches::<W, F>(
                before,
                after,
                start,
                *waker,
                identifier@,
                *wake,
            )
            &&& watching.stops(witness.spec_count(), len, *ready)
        };
    let turn = lemma_turn(start, len, index);
    if turn <= witness.spec_count() {
        lemma_watched::<W, F, C>(
            watching,
            before,
            after,
            start,
            *waker,
            identifier@,
            *wake,
            turn,
        );
        let state = watching.states[turn];
        let answer = watching.answers[turn];
        assert(Watching::<Vec<Option<C>>>::watches_one::<W, F>(
            state,
            watching.states[turn + 1],
            index,
            *waker,
            identifier@,
            *wake,
            answer,
        ));
        assert(state@[index] is Some <==> before@[index] is Some);
        if before@[index] is Some {
            let selector = choose|selector: Selector<W>|
                {
                    &&& #[trigger] <Vec<Option<C>> as Select<W, F>>::watches(
                        &state,
                        index,
                        &watching.states[turn + 1],
                        selector,
                        *wake,
                        answer->0,
                    )
                    &&& selector.spec_index() == index
                    &&& cloned(*waker, selector.spec_waker())
                    &&& selector.spec_identifier() == identifier@
                };
            let left = choose|left: C|
                watching.states[turn + 1]@ == state@.update(index, Some(left))
                    && #[trigger] state@[index]->0.watches(&left, selector, *wake, answer->0);
            assert(state@[index]->0.watches(&left, selector, *wake, answer->0));
            assert forall|k: int| 0 <= k < watching.answers.len() implies touches_one(
                (#[trigger] watching.states[k])@,
                watching.states[k + 1]@,
                Enumerator::visit(start, len, k),
            ) by {
                lemma_watched::<W, F, C>(
                    watching,
                    before,
                    after,
                    start,
                    *waker,
                    identifier@,
                    *wake,
                    k,
                );
                assert(Watching::<Vec<Option<C>>>::watches_one::<W, F>(
                    watching.states[k],
                    watching.states[k + 1],
                    Enumerator::visit(start, len, k),
                    *waker,
                    identifier@,
                    *wake,
                    watching.answers[k],
                ));
            }
            lemma_left(watching.states, start, len, turn, watching.answers.len() as int);
            assert(after@[index] == Some(left));
        }
    }
}

proof fn lemma_unwatched<W, F: Fn(W, (usize, Permit)) -> bool, C: Selectable<W, F>>(
    states: Seq<Vec<Option<C>>>,
    before: Vec<Option<C>>,
    after: Vec<Option<C>>,
    start: int,
    count: nat,
    identifier: u64,
    k: int,
)
    requires
        unwatches_all::<W, F, Vec<Option<C>>>(states, before, after, start, count, identifier),
        0 <= k <= count,
    ensures
        states[k]@.len() == before@.len(),
        forall|i: int|
            0 <= i < before@.len() ==> ((#[trigger] states[k]@[i]) is Some <==> before@[i] is Some),
    decreases k,
{
    if k > 0 {
        lemma_unwatched::<W, F, C>(states, before, after, start, count, identifier, k - 1);
        assert(unwatches_one::<W, F, Vec<Option<C>>>(
            states[k - 1],
            states[k - 1 + 1],
            Enumerator::visit(start, before@.len(), k - 1),
            identifier,
        ));
    }
}

/// Every enabled candidate that a selection witnesses is unwatched, for that selection.
pub proof fn law_unwatch<W, F: Fn(W, (usize, Permit)) -> bool, C: Selectable<W, F>>(
    witness: Witness,
    identifier: &Identifier,
    candidates: &mut Vec<Option<C>>,
    index: int,
)
    requires
        witness.wf(),
        witness.spec_selectables().spec_len() == old(candidates)@.len(),
        call_ensures(Witness::identifier, (&witness,), identifier),
        call_ensures(
            Witness::unwatch::<W, F, Vec<Option<C>>>,
            (witness, candidates),
            (),
        ),
        0 <= index < old(candidates)@.len(),
        old(candidates)@[index] is Some,
        ({
            let len = old(candidates)@.len() as int;
            (index + len - witness.spec_selectables().start()) % len
        }) < witness.spec_count(),
    ensures
        final(candidates)@.len() == old(candidates)@.len(),
        exists|one: C, left: C|
            #[trigger] one.unwatches(&left, identifier@) && final(candidates)@[index] == Some(left),
{
    let before = *old(candidates);
    let after = *final(candidates);
    let len = before@.len();
    let start = witness.spec_selectables().start();
    let states = choose|states: Seq<Vec<Option<C>>>| #[trigger]
        unwatches_all::<W, F, Vec<Option<C>>>(
            states,
            before,
            after,
            start,
            witness.spec_count(),
            witness.spec_identifier(),
        );
    let turn = lemma_turn(start, len, index);
    lemma_unwatched::<W, F, C>(
        states,
        before,
        after,
        start,
        witness.spec_count(),
        witness.spec_identifier(),
        turn,
    );
    let state = states[turn];
    assert(unwatches_one::<W, F, Vec<Option<C>>>(
        state,
        states[turn + 1],
        index,
        witness.spec_identifier(),
    ));
    assert(state@[index] is Some);
    let left = choose|left: C|
        states[turn + 1]@ == state@.update(index, Some(left))
            && #[trigger] state@[index]->0.unwatches(&left, witness.spec_identifier());
    assert(state@[index]->0.unwatches(&left, identifier@));
    assert forall|k: int| 0 <= k < witness.spec_count() implies touches_one(
        (#[trigger] states[k])@,
        states[k + 1]@,
        Enumerator::visit(start, len, k),
    ) by {
        lemma_unwatched::<W, F, C>(
            states,
            before,
            after,
            start,
            witness.spec_count(),
            witness.spec_identifier(),
            k,
        );
        assert(unwatches_one::<W, F, Vec<Option<C>>>(
            states[k],
            states[k + 1],
            Enumerator::visit(start, len, k),
            witness.spec_identifier(),
        ));
    }
    lemma_left(states, start, len, turn, witness.spec_count() as int);
    assert(after@[index] == Some(left));
}

/// A watcher hands out selectors of its selection, and witnesses as many candidates as it passed by,
/// from the first one that it watched.
pub proof fn law_watcher<W>(
    random: usize,
    len: usize,
    identifier: Identifier,
    first: &mut Watcher,
    index: Option<usize>,
    waker: W,
    selector: Selector<W>,
    passing: &mut Watcher,
    witness: Witness,
    unwatching: &mut Witness,
    ended: &mut Witness,
    again: Option<usize>,
    ending: Option<usize>,
    identified: bool,
)
    requires
        0 < len,
        2 * len <= usize::MAX,
        call_ensures(Watcher::new, (random, len, identifier), *old(first)),
        call_ensures(Watcher::next, (first,), index),
        index is Some ==> call_ensures(
            Watcher::selector::<W>,
            (final(first), index->0, waker),
            selector,
        ),
        call_ensures(Selector::<W>::identify, (&selector, &identifier), identified),
        *old(passing) == *final(first),
        call_ensures(Watcher::pass, (passing,), ()),
        call_ensures(Watcher::finish, (*final(passing),), witness),
        *old(unwatching) == witness,
        call_ensures(Witness::next, (unwatching,), again),
        *old(ended) == *final(unwatching),
        call_ensures(Witness::next, (ended,), ending),
    ensures
        index == Some((random % len) as usize),
        selector.spec_index() == index->0,
        selector.spec_waker() == waker,
        identified,
        witness.spec_count() == 1,
        witness.spec_identifier() == identifier@,
        again == index,
        ending is None,
{
    let start = random as int % len as int;
    vstd::arithmetic::div_mod::lemma_mod_bound(random as int, len as int);
    vstd::arithmetic::div_mod::lemma_small_mod(start as nat, len as nat);
    assert(Enumerator::visit(start, len as nat, 0) == start);
}

} // verus!
