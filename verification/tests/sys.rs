use moto_ipc::sys::{
    E_BAD_HANDLE, E_INVALID_ARGUMENT, HANDLE_NONE, HANDLE_SELF, MAP_READ_WRITE, MAP_RESERVED,
    PAGE_SIZE_MID, PAGE_SIZE_SMALL,
};
use moto_sys::{SysHandle, SysMem};

#[test]
fn handles_are_the_kernels() {
    assert_eq!(HANDLE_NONE, SysHandle::NONE.as_u64());
    assert_eq!(HANDLE_SELF, SysHandle::SELF.as_u64());
}

#[test]
fn error_codes_are_the_kernels() {
    assert_eq!(E_INVALID_ARGUMENT, moto_rt::E_INVALID_ARGUMENT);
    assert_eq!(E_BAD_HANDLE, moto_rt::E_BAD_HANDLE);
}

#[test]
fn page_sizes_and_flags_are_the_kernels() {
    assert_eq!(PAGE_SIZE_SMALL, moto_sys::sys_mem::PAGE_SIZE_SMALL);
    assert_eq!(PAGE_SIZE_MID, moto_sys::sys_mem::PAGE_SIZE_MID);
    assert_eq!(MAP_READ_WRITE, SysMem::F_READABLE | SysMem::F_WRITABLE);
    assert_eq!(MAP_RESERVED, 0);
}
