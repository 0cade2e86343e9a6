//! Where applications and their stacks sit in memory.
use vstd::prelude::*;
use crate::config::{
    APP_BASE_ADDRESS, APP_SIZE_LIMIT, KERNEL_STACK_SIZE, MAX_APP_NUM, TASK_CONTEXT_SIZE,
    TRAP_CONTEXT_SIZE, USER_STACK_SIZE,
};

verus! {

/// The address at which application `appid` is loaded.
pub open spec fn app_base(appid: int) -> int {
    APP_BASE_ADDRESS + appid * APP_SIZE_LIMIT
}

/// The kernel stack of one application, known by the address of its lowest byte.
#[derive(Clone, Copy, PartialEq, Eq, Structural, Debug)]
pub struct KernelStack {
    pub base: usize,
}

/// The user stack of one application, known by the address of its lowest byte.
#[derive(Clone, Copy, PartialEq, Eq, Structural, Debug)]
pub struct UserStack {
    pub base: usize,
}

impl UserStack {
    /// The initial stack pointer: one past the top of the stack.
    pub fn get_sp(&self) -> (sp: usize)
        requires
            self.base + USER_STACK_SIZE <= usize::MAX,
        ensures
            sp == self.base + USER_STACK_SIZE,
    {
        self.base + USER_STACK_SIZE
    }
}

/// Where a trap context and a task context are placed on a kernel stack.
#[derive(Clone, Copy, PartialEq, Eq, Structural, Debug)]
pub struct ContextPlacement {
    /// Address of the trap context.
    pub trap_cx: usize,
    /// Address of the task context.
    pub task_cx: usize,
}

impl KernelStack {
    /// The initial stack pointer: one past the top of the stack.
    pub fn get_sp(&self) -> (sp: usize)
        requires
            self.base + KERNEL_STACK_SIZE <= usize::MAX,
        ensures
            sp == self.base + KERNEL_STACK_SIZE,
    {
        self.base + KERNEL_STACK_SIZE
    }

    /// Where the contexts go when pushed on this stack: the trap context at
    /// the top of the stack, the task context right below it.
    pub fn push_context(&self) -> (p: ContextPlacement)
        requires
            self.base + KERNEL_STACK_SIZE <= usize::MAX,
        ensures
            p.trap_cx == self.base + KERNEL_STACK_SIZE - TRAP_CONTEXT_SIZE,
            p.task_cx == p.trap_cx - TASK_CONTEXT_SIZE,
            self.base <= p.task_cx,
            p.task_cx + TASK_CONTEXT_SIZE == p.trap_cx,
            p.trap_cx + TRAP_CONTEXT_SIZE == self.base + KERNEL_STACK_SIZE,
    {
        let trap_cx = self.get_sp() - TRAP_CONTEXT_SIZE;
        let task_cx = trap_cx - TASK_CONTEXT_SIZE;
        ContextPlacement { trap_cx, task_cx }
    }
}

/// The address at which application `appid` is loaded.
pub fn get_base_i(appid: usize) -> (base: usize)
    requires
        app_base(appid as int) <= usize::MAX,
    ensures
        base == app_base(appid as int),
{
    APP_BASE_ADDRESS + appid * APP_SIZE_LIMIT
}

/// How an application is started for the first time.
#[derive(Clone, Copy, PartialEq, Eq, Structural, Debug)]
pub struct AppInitContext {
    /// Where execution starts: the application's load address.
    pub entry: usize,
    /// The user stack pointer it starts with.
    pub user_sp: usize,
    /// Where its trap and task contexts are placed on its kernel stack.
    pub placement: ContextPlacement,
}

/// How application `appid` starts: at its load address, on its own user
/// stack, with its contexts pushed on its own kernel stack.
pub fn init_app_cx(appid: usize, kernel_stack: &KernelStack, user_stack: &UserStack) -> (cx:
    AppInitContext)
    requires
        appid < MAX_APP_NUM,
        kernel_stack.base + KERNEL_STACK_SIZE <= usize::MAX,
        user_stack.base + USER_STACK_SIZE <= usize::MAX,
    ensures
        cx.entry == app_base(appid as int),
        cx.user_sp == user_stack.base + USER_STACK_SIZE,
        cx.placement.trap_cx == kernel_stack.base + KERNEL_STACK_SIZE - TRAP_CONTEXT_SIZE,
        cx.placement.task_cx == cx.placement.trap_cx - TASK_CONTEXT_SIZE,
{
    let entry = get_base_i(appid);
    let user_sp = user_stack.get_sp();
    let placement = kernel_stack.push_context();
    AppInitContext { entry, user_sp, placement }
}

/// One copy of an application image into its load region.
#[derive(Clone, Copy, PartialEq, Eq, Structural, Debug)]
pub struct AppCopy {
    /// Where the image starts in the kernel image.
    pub src: usize,
    /// Length of the image, in bytes.
    pub len: usize,
    /// Where it is copied to.
    pub dst: usize,
}

/// Application `i`'s image spans `[app_start[i], app_start[i + 1])` and fits
/// its load region.
pub open spec fn app_table_ok(app_start: Seq<usize>) -> bool {
    &&& app_start.len() >= 1
    &&& app_base(app_start.len() - 1) <= usize::MAX
    &&& forall|i: int| 0 <= i < app_start.len() - 1 ==> #[trigger] app_start[i] <= app_start[i + 1]
}

/// The copies that load every application listed in the table of image
/// boundaries `app_start`: application `i` goes from `app_start[i]`, with
/// length `app_start[i + 1] - app_start[i]`, to its load address.
pub fn load_app(app_start: &Vec<usize>) -> (copies: Vec<AppCopy>)
    requires
        app_table_ok(app_start@),
    ensures
        copies.len() == app_start.len() - 1,
        forall|i: int| 0 <= i < copies.len() ==> #[trigger] copies@[i] == (AppCopy {
            src: app_start@[i],
            len: (app_start@[i + 1] - app_start@[i]) as usize,
            dst: app_base(i) as usize,
        }),
{
    let num_app = app_start.len() - 1;
    let mut copies: Vec<AppCopy> = Vec::new();
    let mut i: usize = 0;
    while i < num_app
        invariant
            num_app == app_start.len() - 1,
            app_table_ok(app_start@),
            i <= num_app,
            copies.len() == i,
            forall|k: int| 0 <= k < i ==> #[trigger] copies@[k] == (AppCopy {
                src: app_start@[k],
                len: (app_start@[k + 1] - app_start@[k]) as usize,
                dst: app_base(k) as usize,
            }),
        decreases num_app - i,
    {
        assert(app_start@[i as int] <= app_start@[i + 1]);
        assert(app_base(i as int) <= app_base(num_app as int)) by (nonlinear_arith)
            requires i <= num_app;
        let dst = get_base_i(i);
        let src = app_start[i];
        let len = app_start[i + 1] - app_start[i];
        copies.push(AppCopy { src, len, dst });
        i = i + 1;
    }
    copies
}

/// The first application loads at the base address and each next one a
/// region's size further on.
pub proof fn lemma_app_base_steps(i: int)
    requires
        0 <= i,
    ensures
        app_base(0) == APP_BASE_ADDRESS,
        app_base(i + 1) == app_base(i) + APP_SIZE_LIMIT,
{
    assert((i + 1) * APP_SIZE_LIMIT == i * APP_SIZE_LIMIT + APP_SIZE_LIMIT) by (nonlinear_arith);
}

/// The load regions of two different applications do not overlap.
pub proof fn lemma_app_regions_disjoint(i: int, j: int)
    requires
        0 <= i < j,
    ensures
        app_base(i) + APP_SIZE_LIMIT <= app_base(j),
{
    assert(i * APP_SIZE_LIMIT + APP_SIZE_LIMIT <= j * APP_SIZE_LIMIT) by (nonlinear_arith)
        requires i < j;
}

} // verus!
