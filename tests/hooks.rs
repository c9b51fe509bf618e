use adb_hooks::control::{decode_message, fd_from_parsed, startup_device_path, startup_fd};
use adb_hooks::device::{needs_mode, DeviceUpdate, HookContext, OpenAction, UsbIdentity, O_CREAT};
use adb_hooks::dir_handle::{CloseDirAction, HookedDir, ReadAction};
use adb_hooks::dir_index::{DirIndex, EntryKind};
use adb_hooks::paths::is_device_path;

const DEVICE: &[u8] = b"/dev/bus/usb/002/004";

fn context() -> HookContext {
    HookContext::new(Some(DEVICE.to_vec()), Some(7), None)
}

fn context_with_identity() -> HookContext {
    let id = UsbIdentity {
        serial_number: b"R58M123ABC".to_vec(),
        sysfs_path: b"/sys/bus/usb/devices/1-1/serial".to_vec(),
    };
    HookContext::new(Some(DEVICE.to_vec()), Some(7), Some(id))
}

fn read_all(ctx: &HookContext, path: &[u8]) -> Option<Vec<(EntryKind, Vec<u8>)>> {
    let v = ctx.opendir_action(Some(path))?;
    let mut h: HookedDir<u32> = HookedDir::Virtual(v);
    let mut out = Vec::new();
    loop {
        match h.readdir() {
            ReadAction::Entry(e) => out.push((e.kind, e.name)),
            ReadAction::End => break,
            ReadAction::Forward(_) => panic!("synthetic stream forwarded"),
        }
    }
    Some(out)
}

#[test]
fn base_dir_lists_bus_directory() {
    let ctx = context();
    let entries = read_all(&ctx, b"/dev/bus/usb").unwrap();
    assert_eq!(entries, vec![(EntryKind::Directory, b"002".to_vec())]);
}

#[test]
fn bus_dir_lists_device_node() {
    let ctx = context();
    let entries = read_all(&ctx, b"/dev/bus/usb/002").unwrap();
    assert_eq!(entries, vec![(EntryKind::CharDevice, b"004".to_vec())]);
}

#[test]
fn leaf_and_outside_paths_are_not_virtual() {
    let ctx = context();
    assert!(ctx.opendir_action(Some(DEVICE)).is_none());
    assert!(ctx.opendir_action(Some(b"/dev/bus")).is_none());
    assert!(ctx.opendir_action(Some(b"/proc")).is_none());
    assert!(ctx.opendir_action(Some(b"/dev/bus/usb/")).is_none());
    assert!(ctx.opendir_action(None).is_none());
}

#[test]
fn exhausted_stream_keeps_returning_end() {
    let ctx = context();
    let v = ctx.opendir_action(Some(b"/dev/bus/usb")).unwrap();
    assert_eq!(v.position(), 0);
    let mut h: HookedDir<u32> = HookedDir::Virtual(v);
    assert!(matches!(h.readdir(), ReadAction::Entry(_)));
    for _ in 0..5 {
        assert!(matches!(h.readdir(), ReadAction::End));
    }
    assert_eq!(h.closedir(), CloseDirAction::Released);
}

#[test]
fn native_handles_are_forwarded() {
    let mut h: HookedDir<u32> = HookedDir::Native(42);
    assert!(matches!(h.readdir(), ReadAction::Forward(42)));
    assert!(matches!(h.readdir(), ReadAction::Forward(42)));
    assert_eq!(h.closedir(), CloseDirAction::Forward(42));
}

#[test]
fn close_of_active_fd_is_swallowed() {
    let ctx = context();
    assert!(ctx.close_swallows(7));
    assert!(ctx.close_swallows(7));
    assert!(!ctx.close_swallows(8));
    assert!(!ctx.close_swallows(-1));
    let none = HookContext::new(None, None, None);
    assert!(!none.close_swallows(7));
}

#[test]
fn open_of_device_path_returns_active_fd() {
    let ctx = context();
    for flags in [0, 2, 0o2000002] {
        assert_eq!(ctx.open_action(Some(DEVICE), flags), OpenAction::UseActive(7));
    }
}

#[test]
fn open_of_serial_path_writes_serial() {
    let ctx = context_with_identity();
    for _ in 0..3 {
        assert_eq!(
            ctx.open_action(Some(b"/sys/bus/usb/devices/1-1/serial"), 0),
            OpenAction::WriteSerial(b"R58M123ABC".to_vec())
        );
    }
    assert_eq!(
        ctx.open_action(Some(b"/sys/bus/usb/devices/1-2/serial"), 0),
        OpenAction::Forward { with_mode: false }
    );
    let no_id = context();
    assert_eq!(
        no_id.open_action(Some(b"/sys/bus/usb/devices/1-1/serial"), 0),
        OpenAction::Forward { with_mode: false }
    );
}

#[test]
fn open_elsewhere_is_forwarded_with_mode_only_on_create() {
    let ctx = context();
    assert_eq!(ctx.open_action(Some(b"/etc/hosts"), 0), OpenAction::Forward { with_mode: false });
    assert_eq!(ctx.open_action(Some(b"/tmp/x"), O_CREAT | 1), OpenAction::Forward { with_mode: true });
    assert_eq!(ctx.open_action(None, O_CREAT), OpenAction::Forward { with_mode: true });
    assert!(needs_mode(0o101));
    assert!(!needs_mode(0o2));
}

#[test]
fn device_path_without_fd_is_not_reused() {
    let ctx = HookContext::new(Some(DEVICE.to_vec()), None, None);
    assert_eq!(ctx.open_action(Some(DEVICE), 0), OpenAction::Forward { with_mode: false });
}

#[test]
fn update_replaces_path_and_fd_together() {
    let mut ctx = context();
    assert_eq!(ctx.snapshot(), (Some(DEVICE.to_vec()), Some(7)));
    ctx.apply_update(DeviceUpdate { path: b"/dev/bus/usb/003/007".to_vec(), fd: 11 }, None);
    assert_eq!(ctx.snapshot(), (Some(b"/dev/bus/usb/003/007".to_vec()), Some(11)));
    assert_eq!(ctx.active_fd(), Some(11));
    assert!(!ctx.close_swallows(7));
    assert!(ctx.close_swallows(11));
}

#[test]
fn update_discards_previous_ancestors() {
    let mut ctx = context();
    ctx.apply_update(DeviceUpdate { path: b"/dev/bus/usb/003/007".to_vec(), fd: 11 }, None);
    assert!(ctx.opendir_action(Some(b"/dev/bus/usb/002")).is_none());
    assert_eq!(
        read_all(&ctx, b"/dev/bus/usb").unwrap(),
        vec![(EntryKind::Directory, b"003".to_vec())]
    );
    assert_eq!(
        read_all(&ctx, b"/dev/bus/usb/003").unwrap(),
        vec![(EntryKind::CharDevice, b"007".to_vec())]
    );
}

#[test]
fn update_clears_identity_of_previous_device() {
    let mut ctx = context_with_identity();
    ctx.apply_update(DeviceUpdate { path: b"/dev/bus/usb/003/007".to_vec(), fd: 11 }, None);
    assert_eq!(
        ctx.open_action(Some(b"/sys/bus/usb/devices/1-1/serial"), 0),
        OpenAction::Forward { with_mode: false }
    );
}

#[test]
fn index_of_deeper_and_invalid_paths() {
    let idx = DirIndex::build(b"/dev/bus/usb/001/002/003");
    assert_eq!(idx.len(), 3);
    let e = idx.lookup(b"/dev/bus/usb/001/002").unwrap();
    assert_eq!((e.kind, e.name), (EntryKind::CharDevice, b"003".to_vec()));
    let e = idx.lookup(b"/dev/bus/usb/001").unwrap();
    assert_eq!((e.kind, e.name), (EntryKind::Directory, b"002".to_vec()));
    assert_eq!(DirIndex::build(b"/dev/bus/usb").len(), 0);
    assert_eq!(DirIndex::build(b"/dev/bus/usb/").len(), 0);
    assert_eq!(DirIndex::build(b"/dev/bus/usb/002/").len(), 0);
    assert_eq!(DirIndex::build(b"/dev/bus/usb//004").len(), 0);
    assert_eq!(DirIndex::build(b"/dev/bus/usbx/002/004").len(), 0);
    assert_eq!(DirIndex::build(b"/tmp/002/004").len(), 0);
    assert_eq!(DirIndex::build(b"").len(), 0);
    assert_eq!(DirIndex::build(b"/dev/bus/usb/002/..").len(), 0);
    assert_eq!(DirIndex::build(b"/dev/bus/usb/004").len(), 1);
}

#[test]
fn name_length_limit() {
    let mut p = b"/dev/bus/usb/".to_vec();
    p.extend(std::iter::repeat(b'a').take(255));
    assert!(is_device_path(&p));
    p.push(b'a');
    assert!(!is_device_path(&p));
}

#[test]
fn control_message_decoding() {
    assert!(decode_message(b"/dev/bus/usb/002/004", &[]).is_none());
    let u = decode_message(b"/dev/bus/usb/002/004", &[9, 10]).unwrap();
    assert_eq!(u.path, b"/dev/bus/usb/002/004".to_vec());
    assert_eq!(u.fd, 9);
}

#[test]
fn startup_environment() {
    assert_eq!(startup_device_path(Some(b"none")), None);
    assert_eq!(startup_device_path(None), None);
    assert_eq!(startup_device_path(Some(b"/dev/bus/usb/001/002")), Some(b"/dev/bus/usb/001/002".to_vec()));
    assert_eq!(startup_device_path(Some(b"nonE")), Some(b"nonE".to_vec()));
    assert_eq!(startup_fd(Some("12")), Some(12));
    assert_eq!(startup_fd(Some("-1")), None);
    assert_eq!(startup_fd(Some("-2")), Some(-2));
    assert_eq!(startup_fd(Some("+5")), Some(5));
    assert_eq!(startup_fd(Some(" 5")), None);
    assert_eq!(startup_fd(Some("2147483648")), None);
    assert_eq!(startup_fd(Some("-")), None);
    assert_eq!(startup_fd(Some("abc")), None);
    assert_eq!(startup_fd(Some("")), None);
    assert_eq!(startup_fd(None), None);
    assert_eq!(fd_from_parsed(Some(-1)), None);
    assert_eq!(fd_from_parsed(Some(3)), Some(3));
    assert_eq!(fd_from_parsed(None), None);
}

#[test]
fn update_installs_new_identity() {
    let mut ctx = context();
    let id = UsbIdentity {
        serial_number: b"0123456789".to_vec(),
        sysfs_path: b"/sys/bus/usb/devices/2-1/serial".to_vec(),
    };
    ctx.apply_update(DeviceUpdate { path: b"/dev/bus/usb/002/005".to_vec(), fd: 12 }, Some(id));
    assert_eq!(
        ctx.open_action(Some(b"/sys/bus/usb/devices/2-1/serial"), 0),
        OpenAction::WriteSerial(b"0123456789".to_vec())
    );
    assert_eq!(ctx.open_action(Some(b"/dev/bus/usb/002/005"), 0), OpenAction::UseActive(12));
    assert_eq!(ctx.open_action(Some(DEVICE), 0), OpenAction::Forward { with_mode: false });
    assert_eq!(
        read_all(&ctx, b"/dev/bus/usb/002").unwrap(),
        vec![(EntryKind::CharDevice, b"005".to_vec())]
    );
}
