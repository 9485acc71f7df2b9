//! Stacks of coroutines.

use vstd::prelude::*;

use crate::parse;

verus! {

/// Whether `aligned` is the least multiple of the page size that is not less than `size`.
pub open spec fn aligned(aligned: int, size: int, page_size: int) -> bool {
    &&& aligned % page_size == 0
    &&& size <= aligned < size + page_size
}

/// The least multiple of the page size that is not less than `size`.
pub open spec fn spec_align(size: int, page_size: int) -> int {
    (size + page_size - 1) / page_size * page_size
}

/// Rounding up gives the least multiple of the page size that is not less, and only that.
pub proof fn law_align(size: int, page_size: int, other: int)
    requires
        0 <= size,
        0 < page_size,
    ensures
        aligned(spec_align(size, page_size), size, page_size),
        aligned(other, size, page_size) ==> other == spec_align(size, page_size),
{
    let above = size + page_size - 1;
    vstd::arithmetic::div_mod::lemma_fundamental_div_mod(above, page_size);
    vstd::arithmetic::div_mod::lemma_mod_bound(above, page_size);
    vstd::arithmetic::mul::lemma_mul_is_commutative(page_size, above / page_size);
    vstd::arithmetic::div_mod::lemma_mod_multiples_basic(above / page_size, page_size);
    if aligned(other, size, page_size) {
        let q = other / page_size;
        let p = above / page_size;
        vstd::arithmetic::div_mod::lemma_fundamental_div_mod(other, page_size);
        assert(q == p) by (nonlinear_arith)
            requires
                page_size > 0,
                other == page_size * q,
                above == page_size * p + above % page_size,
                0 <= above % page_size < page_size,
                size <= other < size + page_size,
                above == size + page_size - 1,
        ;
        vstd::arithmetic::mul::lemma_mul_is_commutative(page_size, q);
    }
}

/// StackSize specifies desired stack size for new task.
///
/// It defaults to what environment variable `STUCK_STACK_SIZE` specifies and
/// 32KiB in 32-bit systems and 1MiB in 64-bit systems in case of absent.
#[derive(Copy, Clone, Debug)]
pub struct StackSize {
    size: isize,
}

/// What a [StackSize] asks for.
pub enum SizeView {
    /// The default size and so much more.
    Extra(nat),
    /// So much.
    Size(nat),
}

impl View for StackSize {
    type V = SizeView;

    closed spec fn view(&self) -> SizeView {
        if self.size >= 0 {
            SizeView::Extra(self.size as nat)
        } else {
            SizeView::Size((-self.size) as nat)
        }
    }
}

impl Default for StackSize {
    fn default() -> (size: Self)
        ensures
            size@ == SizeView::Extra(0),
            size.wf(),
    {
        StackSize { size: 0 }
    }
}

/// Default stack size before rounding: 1MiB in 64-bit systems and 32KiB in 32-bit systems.
pub open spec fn spec_default_size() -> nat {
    if usize::BITS == 64 {
        1024 * 1024
    } else {
        32 * 1024
    }
}

/// Default stack size before rounding, given what `STUCK_STACK_SIZE` specifies: itself if it is a
/// number other than zero.
pub open spec fn spec_global_size(env: Option<Seq<char>>) -> nat {
    match env {
        Some(text) => match parse::number(text) {
            Some(n) => if n == 0 {
                spec_default_size()
            } else {
                n as nat
            },
            None => spec_default_size(),
        },
        None => spec_default_size(),
    }
}

impl SizeView {
    /// A desired size. No stack is without a byte.
    pub open spec fn asked(size: usize) -> Self {
        SizeView::Size(
            if size == 0 {
                1
            } else {
                size as nat
            },
        )
    }

    /// Stack size before the last rounding, given the default size and the least size that the
    /// system can work with.
    pub open spec fn unaligned(self, global: int, minimum: int, page_size: int) -> int {
        let size = match self {
            SizeView::Extra(extra) => global + spec_align(extra as int, page_size),
            SizeView::Size(size) => spec_align(size as int, page_size),
        };
        if size < minimum {
            minimum
        } else {
            size
        }
    }
}

impl StackSize {
    pub closed spec fn wf(&self) -> bool {
        -isize::MAX <= self.size
    }

    fn align_to_page_size(size: usize, page_size: usize) -> (aligned: usize)
        requires
            page_size > 0,
            size + page_size - 1 <= usize::MAX,
        ensures
            aligned == spec_align(size as int, page_size as int),
    {
        let above: usize = size + (page_size - 1);
        proof {
            law_align(size as int, page_size as int, 0);
            vstd::arithmetic::div_mod::lemma_fundamental_div_mod(above as int, page_size as int);
            vstd::arithmetic::mul::lemma_mul_is_commutative(
                page_size as int,
                above as int / page_size as int,
            );
        }
        above - above % page_size
    }

    fn default_size(page_size: usize) -> (size: usize)
        requires
            page_size > 0,
            spec_default_size() + page_size - 1 <= usize::MAX,
        ensures
            size == spec_align(spec_default_size() as int, page_size as int),
    {
        let size: usize = if usize::BITS == 64 {
            1024 * 1024
        } else {
            32 * 1024
        };
        Self::align_to_page_size(size, page_size)
    }

    /// Default stack size, given what environment variable `STUCK_STACK_SIZE` specifies.
    pub fn global_size(env: Option<&str>, page_size: usize) -> (size: usize)
        requires
            page_size > 0,
            spec_default_size() + page_size - 1 <= usize::MAX,
            spec_global_size(match env {
                Some(text) => Some(text@),
                None => None,
            }) + page_size - 1 <= usize::MAX,
        ensures
            size == spec_align(
                spec_global_size(
                    match env {
                        Some(text) => Some(text@),
                        None => None,
                    },
                ) as int,
                page_size as int,
            ),
    {
        match env {
            None => Self::default_size(page_size),
            Some(text) => match parse::parse_usize(text) {
                None => Self::default_size(page_size),
                Some(n) => if n == 0 {
                    Self::default_size(page_size)
                } else {
                    Self::align_to_page_size(n, page_size)
                },
            },
        }
    }

    /// Stack size in whole pages, given the default size and the least size that the system can
    /// work with.
    pub fn aligned_page_size(&self, global: usize, minimum: usize, page_size: usize) -> (size:
        usize)
        requires
            self.wf(),
            page_size > 0,
            self@.unaligned(global as int, minimum as int, page_size as int) + page_size - 1
                <= usize::MAX,
        ensures
            size == spec_align(
                self@.unaligned(global as int, minimum as int, page_size as int),
                page_size as int,
            ),
            size % page_size == 0,
            size >= minimum,
    {
        proof {
            let asked = match self@ {
                SizeView::Extra(extra) => extra as int,
                SizeView::Size(size) => size as int,
            };
            law_align(asked, page_size as int, 0);
            law_align(
                self@.unaligned(global as int, minimum as int, page_size as int),
                page_size as int,
                0,
            );
            vstd::arithmetic::div_mod::lemma_small_mod(
                (page_size - 1) as nat,
                page_size as nat,
            );
            vstd::arithmetic::div_mod::lemma_basic_div(page_size as int - 1, page_size as int);
        }
        let size: usize = if self.size == 0 {
            assert(spec_align(0, page_size as int) == 0);
            global
        } else if self.size > 0 {
            global + Self::align_to_page_size(self.size as usize, page_size)
        } else {
            Self::align_to_page_size((-self.size) as usize, page_size)
        };
        let least: usize = if size < minimum {
            minimum
        } else {
            size
        };
        Self::align_to_page_size(least, page_size)
    }

    /// Specifies extra stack size in addition to default.
    pub fn with_extra_size(size: usize) -> (stack_size: StackSize)
        requires
            size <= isize::MAX,
        ensures
            stack_size.wf(),
            stack_size@ == SizeView::Extra(size as nat),
    {
        StackSize { size: size as isize }
    }

    /// Specifies desired stack size.
    pub fn with_size(size: usize) -> (stack_size: StackSize)
        requires
            size <= isize::MAX,
        ensures
            stack_size.wf(),
            stack_size@ == SizeView::asked(size),
    {
        let size: usize = if size == 0 {
            1
        } else {
            size
        };
        StackSize { size: -(size as isize) }
    }
}

/// A stack of a desired size has at least that size, whatever the default size is. To desire no byte
/// is to desire one, not the default.
pub proof fn law_desired_size(
    size: usize,
    global: usize,
    other: usize,
    minimum: usize,
    page_size: usize,
)
    requires
        page_size > 0,
    ensures
        spec_align(
            SizeView::asked(size).unaligned(global as int, minimum as int, page_size as int),
            page_size as int,
        ) >= size,
        SizeView::asked(size).unaligned(global as int, minimum as int, page_size as int)
            == SizeView::asked(size).unaligned(other as int, minimum as int, page_size as int),
        SizeView::asked(0) == SizeView::asked(1),
        SizeView::asked(size) is Size,
{
    law_align(
        if size == 0 {
            1
        } else {
            size as int
        },
        page_size as int,
        0,
    );
    law_align(
        SizeView::asked(size).unaligned(global as int, minimum as int, page_size as int),
        page_size as int,
        0,
    );
}

/// Default stack size, which is found out once: the environment may change later.
pub struct GlobalSize {
    size: Option<usize>,
}

impl View for GlobalSize {
    type V = Option<usize>;

    closed spec fn view(&self) -> Option<usize> {
        self.size
    }
}

/// Whether `size` is the right answer, given what was found out before and what environment
/// variable `STUCK_STACK_SIZE` specifies now, and is kept.
pub open spec fn answers(
    before: Option<usize>,
    env: Option<Seq<char>>,
    page_size: usize,
    size: usize,
    after: Option<usize>,
) -> bool {
    &&& after == Some(size)
    &&& match before {
        Some(found) => size == found,
        None => size == spec_align(spec_global_size(env) as int, page_size as int),
    }
}

impl GlobalSize {
    pub fn new() -> (size: Self)
        ensures
            size@ is None,
    {
        GlobalSize { size: None }
    }

    /// Default stack size if it was found out.
    pub fn found(&self) -> (found: Option<usize>)
        ensures
            found == self@,
    {
        self.size
    }

    /// Default stack size: the one that was found out, if any, no matter what environment variable
    /// `STUCK_STACK_SIZE` specifies now.
    pub fn get(&mut self, env: Option<&str>, page_size: usize) -> (size: usize)
        requires
            old(self)@ is None ==> {
                &&& page_size > 0
                &&& spec_default_size() + page_size - 1 <= usize::MAX
                &&& spec_global_size(
                    match env {
                        Some(text) => Some(text@),
                        None => None,
                    },
                ) + page_size - 1 <= usize::MAX
            },
        ensures
            answers(
                old(self)@,
                match env {
                    Some(text) => Some(text@),
                    None => None,
                },
                page_size,
                size,
                final(self)@,
            ),
    {
        if let Some(size) = self.size {
            return size;
        }
        let size: usize = StackSize::global_size(env, page_size);
        self.size = Some(size);
        size
    }
}

/// The first answer stays, whatever the environment variable specifies later. It is the least
/// number of whole pages for what the variable specified at first, and 1MiB in 64-bit systems if
/// that was no number other than zero and 1MiB is a number of whole pages.
pub proof fn law_found_once(
    states: Seq<Option<usize>>,
    envs: Seq<Option<Seq<char>>>,
    page_sizes: Seq<usize>,
    sizes: Seq<usize>,
    i: int,
)
    requires
        states.len() == sizes.len() + 1,
        states[0] is None,
        forall|k: int|
            0 <= k < sizes.len() ==> answers(
                states[k],
                envs[k],
                page_sizes[k],
                #[trigger] sizes[k],
                states[k + 1],
            ),
        0 <= i < sizes.len(),
    ensures
        sizes[i] == sizes[0],
        sizes[i] == spec_align(spec_global_size(envs[0]) as int, page_sizes[0] as int),
        page_sizes[0] > 0 ==> aligned(
            sizes[i] as int,
            spec_global_size(envs[0]) as int,
            page_sizes[0] as int,
        ),
        ({
            &&& usize::BITS == 64
            &&& page_sizes[0] > 0
            &&& 0x10_0000int % page_sizes[0] as int == 0
            &&& match envs[0] {
                Some(text) => parse::number(text) is None || parse::number(text) == Some(0usize),
                None => true,
            }
        }) ==> sizes[i] == 0x10_0000,
    decreases i,
{
    if page_sizes[0] > 0 {
        law_align(spec_global_size(envs[0]) as int, page_sizes[0] as int, 0x10_0000);
    }
    assert(answers(states[i], envs[i], page_sizes[i], sizes[i], states[i + 1]));
    if i > 0 {
        law_found_once(states, envs, page_sizes, sizes, i - 1);
        assert(answers(
            states[i - 1],
            envs[i - 1],
            page_sizes[i - 1],
            sizes[i - 1],
            states[i - 1 + 1],
        ));
    }
}

/// Memory to map for a stack.
pub struct Mapping {
    /// Bytes to map without access.
    pub alloc_size: usize,
    /// Offset of the bytes to make readable and writable.
    pub offset: usize,
    /// Bytes to make readable and writable.
    pub stack_size: usize,
}

/// Stack between two pages that guard it.
pub struct Stack {
    base: usize,
    size: usize,
}

impl Stack {
    pub closed spec fn spec_base(&self) -> usize {
        self.base
    }

    pub closed spec fn spec_size(&self) -> usize {
        self.size
    }

    /// Address of the lowest byte.
    pub fn base(&self) -> (base: usize)
        ensures
            base == self.spec_base(),
    {
        self.base
    }

    /// Number of bytes.
    pub fn size(&self) -> (size: usize)
        ensures
            size == self.spec_size(),
    {
        self.size
    }

    /// A stack that has no memory.
    pub fn zeroed() -> (stack: Stack)
        ensures
            stack.spec_base() == 0,
            stack.spec_size() == 0,
    {
        Stack { base: 0, size: 0 }
    }

    /// Plans the memory of a stack with one page below and one above that guard it.
    pub fn plan(size: StackSize, global: usize, minimum: usize, page_size: usize) -> (mapping:
        Mapping)
        requires
            size.wf(),
            page_size > 0,
            spec_align(
                size@.unaligned(global as int, minimum as int, page_size as int),
                page_size as int,
            ) + 2 * page_size <= usize::MAX,
        ensures
            mapping.stack_size == spec_align(
                size@.unaligned(global as int, minimum as int, page_size as int),
                page_size as int,
            ),
            mapping.offset == page_size,
            mapping.alloc_size == mapping.stack_size + 2 * page_size,
    {
        proof {
            law_align(
                match size@ {
                    SizeView::Extra(extra) => extra as int,
                    SizeView::Size(size) => size as int,
                },
                page_size as int,
                0,
            );
            law_align(
                size@.unaligned(global as int, minimum as int, page_size as int),
                page_size as int,
                0,
            );
        }
        let stack_size: usize = size.aligned_page_size(global, minimum, page_size);
        Mapping { alloc_size: stack_size + 2 * page_size, offset: page_size, stack_size }
    }

    /// The stack in memory that was mapped at `low` as planned.
    pub fn mapped(low: usize, mapping: &Mapping) -> (stack: Stack)
        requires
            low + mapping.offset <= usize::MAX,
        ensures
            stack.spec_base() == low + mapping.offset,
            stack.spec_size() == mapping.stack_size,
    {
        Stack { base: low + mapping.offset, size: mapping.stack_size }
    }

    /// Memory to unmap when this stack is dropped, by address and number of bytes.
    pub fn unmapping(&self, page_size: usize) -> (unmapping: Option<(usize, usize)>)
        requires
            self.spec_base() != 0 ==> self.spec_base() >= page_size,
            self.spec_size() + 2 * page_size <= usize::MAX,
        ensures
            unmapping == if self.spec_base() == 0 {
                None
            } else {
                Some(
                    (
                        (self.spec_base() - page_size) as usize,
                        (self.spec_size() + 2 * page_size) as usize,
                    ),
                )
            },
    {
        if self.base == 0 {
            return None;
        }
        Some((self.base - page_size, self.size + 2 * page_size))
    }
}

/// What a stack unmaps is what was mapped for it, and its own bytes lie a page away from both ends.
pub proof fn law_unmaps_what_was_mapped(low: int, mapping: Mapping, page_size: int)
    requires
        0 < page_size,
        mapping.offset == page_size,
        mapping.alloc_size == mapping.stack_size + 2 * page_size,
    ensures
        (low + mapping.offset) - page_size == low,
        mapping.stack_size + 2 * page_size == mapping.alloc_size,
        low + page_size <= low + mapping.offset,
        low + mapping.offset + mapping.stack_size + page_size == low + mapping.alloc_size,
{
}

/// A stack of a desired size has that many bytes in whole pages and no page more than it takes,
/// unless the least size is larger. The default size has no part in it.
pub proof fn law_with_size(
    size: usize,
    stack_size: StackSize,
    global: usize,
    minimum: usize,
    page_size: usize,
    aligned: usize,
)
    requires
        page_size > 0,
        call_ensures(StackSize::with_size, (size,), stack_size),
        call_ensures(
            StackSize::aligned_page_size,
            (&stack_size, global, minimum, page_size),
            aligned,
        ),
    ensures
        aligned % page_size == 0,
        aligned >= size,
        aligned >= minimum,
        aligned > 0,
        size > 0 && size >= minimum ==> aligned < size + page_size,
        size < minimum ==> aligned < minimum + page_size,
        size == 0 && minimum == 0 ==> aligned == page_size,
{
    let page = page_size as int;
    let asked = if size == 0 {
        1int
    } else {
        size as int
    };
    law_align(asked, page, page);
    law_align(stack_size@.unaligned(global as int, minimum as int, page), page, page);
    let once = spec_align(asked, page);
    law_align(once, page, once);
    if size < minimum && once >= minimum {
        assert(once < minimum + page);
    }
    vstd::arithmetic::div_mod::lemma_mod_self_0(page);
}

/// A stack with extra size has the default size and that many bytes more, in whole pages and no page
/// more than it takes, unless the least size is larger. The default asks for no extra size.
pub proof fn law_with_extra_size(
    extra: usize,
    stack_size: StackSize,
    default: StackSize,
    global: usize,
    minimum: usize,
    page_size: usize,
    aligned: usize,
    defaulted: usize,
)
    requires
        page_size > 0,
        global % page_size == 0,
        call_ensures(StackSize::with_extra_size, (extra,), stack_size),
        call_ensures(
            StackSize::aligned_page_size,
            (&stack_size, global, minimum, page_size),
            aligned,
        ),
        call_ensures(<StackSize as Default>::default, (), default),
        call_ensures(
            StackSize::aligned_page_size,
            (&default, global, minimum, page_size),
            defaulted,
        ),
    ensures
        aligned % page_size == 0,
        aligned >= global + extra,
        aligned >= minimum,
        global + extra >= minimum ==> aligned < global + extra + page_size,
        global + extra < minimum ==> aligned < minimum + page_size,
        extra == 0 ==> aligned == defaulted,
        global >= minimum ==> defaulted == global,
        global < minimum ==> minimum <= defaulted < minimum + page_size,
{
    let page = page_size as int;
    law_align(extra as int, page, 0);
    law_align(0, page, 0);
    vstd::arithmetic::div_mod::lemma_small_mod(0, page as nat);
    assert(spec_align(0, page) == 0);
    let sum = global + spec_align(extra as int, page);
    assert(sum % page == 0) by {
        vstd::arithmetic::div_mod::lemma_mod_adds(
            global as int,
            spec_align(extra as int, page),
            page,
        );
        vstd::arithmetic::div_mod::lemma_add_mod_noop(
            global as int,
            spec_align(extra as int, page),
            page,
        );
    }
    law_align(sum, page, sum);
    law_align(stack_size@.unaligned(global as int, minimum as int, page), page, sum);
    law_align(default@.unaligned(global as int, minimum as int, page), page, global as int);
}

/// The default size is what the environment specifies by a number other than zero, or else 1MiB in
/// 64-bit systems and 32KiB in others, in whole pages and no page more than it takes.
pub proof fn law_global_size(
    text: &str,
    parsed: Option<usize>,
    page_size: usize,
    specified: usize,
    unspecified: usize,
)
    requires
        page_size > 0,
        call_ensures(parse::parse_usize, (text,), parsed),
        call_ensures(StackSize::global_size, (Some(text), page_size), specified),
        call_ensures(StackSize::global_size, (None, page_size), unspecified),
    ensures
        specified % page_size == 0,
        unspecified % page_size == 0,
        parsed is Some && parsed->0 != 0 ==> parsed->0 <= specified < parsed->0 + page_size,
        parsed is None || parsed->0 == 0 ==> specified == unspecified,
        usize::BITS == 64 ==> 0x10_0000 <= unspecified < 0x10_0000 + page_size,
        usize::BITS != 64 ==> 0x8000 <= unspecified < 0x8000 + page_size,
{
    law_align(spec_global_size(Some(text@)) as int, page_size as int, 0);
    law_align(spec_global_size(None) as int, page_size as int, 0);
}

/// The default size is found out when first asked for, and stays, whatever the environment says
/// later.
pub proof fn law_global_size_stays(
    new: GlobalSize,
    first: &mut GlobalSize,
    second: &mut GlobalSize,
    env: Option<&str>,
    later: Option<&str>,
    page_size: usize,
    other: usize,
    found: (Option<usize>, Option<usize>, Option<usize>),
    sizes: (usize, usize, usize),
)
    requires
        call_ensures(GlobalSize::new, (), new),
        call_ensures(GlobalSize::found, (&new,), found.0),
        *old(first) == new,
        call_ensures(GlobalSize::get, (first, env, page_size), sizes.0),
        call_ensures(StackSize::global_size, (env, page_size), sizes.2),
        call_ensures(GlobalSize::found, (final(first),), found.1),
        *old(second) == *final(first),
        call_ensures(GlobalSize::get, (second, later, other), sizes.1),
        call_ensures(GlobalSize::found, (final(second),), found.2),
    ensures
        found.0 is None,
        sizes.0 == sizes.2,
        sizes.1 == sizes.0,
        found.1 == Some(sizes.0),
        found.2 == Some(sizes.0),
{
}

/// A stack lies between two pages of what is mapped for it, and unmaps all of that. One without
/// memory unmaps nothing.
pub proof fn law_mapped_and_unmapped(
    size: StackSize,
    global: usize,
    minimum: usize,
    page_size: usize,
    aligned: usize,
    mapping: Mapping,
    low: usize,
    stack: Stack,
    base: usize,
    bytes: usize,
    unmapping: Option<(usize, usize)>,
    zeroed: Stack,
    nothing: Option<(usize, usize)>,
)
    requires
        page_size > 0,
        call_ensures(StackSize::aligned_page_size, (&size, global, minimum, page_size), aligned),
        call_ensures(Stack::plan, (size, global, minimum, page_size), mapping),
        low + mapping.alloc_size <= usize::MAX,
        call_ensures(Stack::mapped, (low, &mapping), stack),
        call_ensures(Stack::base, (&stack,), base),
        call_ensures(Stack::size, (&stack,), bytes),
        call_ensures(Stack::unmapping, (&stack, page_size), unmapping),
        call_ensures(Stack::zeroed, (), zeroed),
        call_ensures(Stack::unmapping, (&zeroed, page_size), nothing),
    ensures
        bytes == aligned,
        base == low + page_size,
        base + bytes + page_size == low + mapping.alloc_size,
        mapping.offset == page_size,
        mapping.stack_size == bytes,
        unmapping == Some((low, mapping.alloc_size)),
        nothing is None,
{
}

} // verus!
