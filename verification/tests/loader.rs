use os_kernel::config::{
    APP_BASE_ADDRESS, APP_SIZE_LIMIT, KERNEL_STACK_SIZE, TASK_CONTEXT_SIZE, TRAP_CONTEXT_SIZE,
    USER_STACK_SIZE,
};
use os_kernel::loader::{
    get_base_i, init_app_cx, load_app, AppCopy, ContextPlacement, KernelStack, UserStack,
};

#[test]
fn base_addresses_of_apps() {
    assert_eq!(get_base_i(0), 0x8040_0000);
    assert_eq!(get_base_i(1), 0x8042_0000);
    assert_eq!(get_base_i(3), APP_BASE_ADDRESS + 3 * APP_SIZE_LIMIT);
}

#[test]
fn app_regions_do_not_overlap() {
    for i in 0..10 {
        assert!(get_base_i(i) + APP_SIZE_LIMIT <= get_base_i(i + 1));
    }
}

#[test]
fn stack_pointers_are_stack_tops() {
    let u = UserStack { base: 0x1000 };
    assert_eq!(u.get_sp(), 0x1000 + USER_STACK_SIZE);
    let k = KernelStack { base: 0x9000 };
    assert_eq!(k.get_sp(), 0x9000 + KERNEL_STACK_SIZE);
}

#[test]
fn contexts_pushed_below_stack_top() {
    let k = KernelStack { base: 0x10000 };
    let p = k.push_context();
    assert_eq!(p.trap_cx, 0x10000 + KERNEL_STACK_SIZE - TRAP_CONTEXT_SIZE);
    assert_eq!(p.task_cx, p.trap_cx - TASK_CONTEXT_SIZE);
    assert_eq!(p.trap_cx, 0x10000 + 8192 - 272);
    assert_eq!(p.task_cx, 0x10000 + 8192 - 272 - 104);
}

#[test]
fn init_app_cx_for_second_app() {
    let k = KernelStack { base: 0x8000_0000 };
    let u = UserStack { base: 0x8010_0000 };
    let cx = init_app_cx(1, &k, &u);
    assert_eq!(cx.entry, 0x8042_0000);
    assert_eq!(cx.user_sp, 0x8010_0000 + 4096);
    assert_eq!(
        cx.placement,
        ContextPlacement { trap_cx: 0x8000_2000 - 272, task_cx: 0x8000_2000 - 272 - 104 }
    );
}

#[test]
fn load_app_plans_one_copy_per_app() {
    let table = vec![0x1000, 0x1800, 0x1800, 0x3000];
    let copies = load_app(&table);
    assert_eq!(
        copies,
        vec![
            AppCopy { src: 0x1000, len: 0x800, dst: 0x8040_0000 },
            AppCopy { src: 0x1800, len: 0, dst: 0x8042_0000 },
            AppCopy { src: 0x1800, len: 0x1800, dst: 0x8044_0000 },
        ]
    );
    assert!(load_app(&vec![0x1000]).is_empty());
}
