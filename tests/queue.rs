use ocl::error::OclError;
use ocl::event::{Event, EventStatus};
use ocl::kernel::{Kernel, KernelArg, KernelEntry};
use ocl::queue::{Buffer, CommandQueue};

const NONE: &[Event] = &[];

fn add_kernel(src: Buffer, dst: Buffer, addend: u32, global: usize) -> Kernel {
    let mut k = Kernel::new(KernelEntry::AddScalar)
        .arg_buf_named("src".to_string(), Some(src))
        .arg_scl(addend)
        .arg_buf(dst);
    k.set_geometry(global, None).unwrap();
    k
}

#[test]
fn scenario_add_scalar_once() {
    let mut q = CommandQueue::new();
    let src = Buffer::create(&mut q, 4, Some(&[1, 2, 3, 4][..])).unwrap();
    let dst = Buffer::create(&mut q, 4, None).unwrap();
    let k = add_kernel(src, dst, 11, 4);
    q.enqueue_kernel(&k, NONE).unwrap();
    assert_eq!(q.finish(), Ok(()));
    let mut out = vec![0u32; 4];
    assert_eq!(q.read(dst, &mut out), Ok(()));
    assert_eq!(out, vec![12, 13, 14, 15]);
}

#[test]
fn scenario_rebind_source_eight_times() {
    let mut q = CommandQueue::new();
    let init = [1u32, 2, 3, 4];
    let src = Buffer::create(&mut q, 4, Some(&init[..])).unwrap();
    let dst = Buffer::create(&mut q, 4, None).unwrap();
    let mut k = add_kernel(src, dst, 11, 4);
    let mut kernel_events = Vec::new();
    for itr in 0..8 {
        if itr != 0 {
            k.set_arg_buf_named(&"src".to_string(), Some(dst)).unwrap();
        }
        kernel_events.push(q.enqueue_kernel(&k, NONE).unwrap());
    }
    assert_eq!(q.finish(), Ok(()));
    let mut out = vec![0u32; 4];
    q.read(dst, &mut out).unwrap();
    let expected: Vec<u32> = init.iter().map(|v| v + 8 * 11).collect();
    assert_eq!(out, expected);
    for e in kernel_events {
        assert_eq!(q.status(e), Some(EventStatus::Complete));
    }
}

#[test]
fn scenario_callback_on_read_event() {
    let mut q = CommandQueue::new();
    let src = Buffer::create(&mut q, 4, Some(&[1, 2, 3, 4][..])).unwrap();
    let dst = Buffer::create(&mut q, 4, None).unwrap();
    let mut k = add_kernel(src, dst, 11, 4);
    let mut read_events = Vec::new();
    for itr in 0..3u64 {
        if itr != 0 {
            k.set_arg_buf_named(&"src".to_string(), Some(dst)).unwrap();
        }
        let ke = q.enqueue_kernel(&k, NONE).unwrap();
        let re = q.enqueue_read(dst, &[ke]).unwrap();
        let copy = re;
        q.set_callback(copy, itr).unwrap();
        read_events.push(re);
    }
    assert!(q.deliveries().is_empty());
    q.finish().unwrap();
    let fired = q.deliveries();
    assert_eq!(fired.len(), 3);
    for (itr, d) in fired.iter().enumerate() {
        assert_eq!(d.status, 0);
        assert_eq!(d.context, itr as u64);
        assert_eq!(d.event, read_events[itr]);
        let expected: Vec<u32> = [1u32, 2, 3, 4].iter().map(|v| v + (itr as u32 + 1) * 11).collect();
        assert_eq!(q.read_result(d.event), Some(expected));
    }
}

#[test]
fn scenario_init_length_mismatch() {
    let mut q = CommandQueue::new();
    assert_eq!(Buffer::create(&mut q, 4, Some(&[1, 2, 3][..])), Err(OclError::SizeMismatch));
}

#[test]
fn write_then_read_round_trip() {
    for n in [0usize, 1, 5] {
        let mut q = CommandQueue::new();
        let b = Buffer::create(&mut q, n, None).unwrap();
        let data: Vec<u32> = (0..n as u32).map(|v| v * 7 + 3).collect();
        assert_eq!(q.write(b, &data), Ok(()));
        let mut back = vec![0u32; n];
        assert_eq!(q.read(b, &mut back), Ok(()));
        assert_eq!(back, data);
    }
}

#[test]
fn later_command_sees_earlier_write() {
    let mut q = CommandQueue::new();
    let b = Buffer::create(&mut q, 3, None).unwrap();
    q.enqueue_write(b, &[5, 6, 7], NONE).unwrap();
    let r = q.enqueue_read(b, NONE).unwrap();
    assert_eq!(q.read_result(r), None);
    q.finish().unwrap();
    assert_eq!(q.read_result(r), Some(vec![5, 6, 7]));
}

#[test]
fn rebinding_after_enqueue_keeps_snapshot() {
    let mut q = CommandQueue::new();
    let a = Buffer::create(&mut q, 2, Some(&[1, 1][..])).unwrap();
    let other = Buffer::create(&mut q, 2, Some(&[100, 100][..])).unwrap();
    let dst = Buffer::create(&mut q, 2, None).unwrap();
    let mut k = add_kernel(a, dst, 1, 2);
    q.enqueue_kernel(&k, NONE).unwrap();
    k.set_arg_buf_named(&"src".to_string(), Some(other)).unwrap();
    q.finish().unwrap();
    let mut out = vec![0u32; 2];
    q.read(dst, &mut out).unwrap();
    assert_eq!(out, vec![2, 2]);
}

#[test]
fn wait_list_runs_after_its_events() {
    let mut q = CommandQueue::new();
    let a = Buffer::create(&mut q, 2, None).unwrap();
    let b = Buffer::create(&mut q, 2, None).unwrap();
    let e1 = q.enqueue_write(a, &[4, 5], NONE).unwrap();
    let e2 = q.enqueue_write(b, &[9, 9], NONE).unwrap();
    let c = q.enqueue_copy(a, b, &[e1, e2]).unwrap();
    q.finish().unwrap();
    assert_eq!(q.status(c), Some(EventStatus::Complete));
    let mut out = vec![0u32; 2];
    q.read(b, &mut out).unwrap();
    assert_eq!(out, vec![4, 5]);
}

#[test]
fn unknown_wait_event_is_refused() {
    let mut q = CommandQueue::new();
    let a = Buffer::create(&mut q, 1, None).unwrap();
    assert_eq!(q.enqueue_read(a, &[Event { id: 3 }]), Err(OclError::DeviceError));
}

#[test]
fn callback_fires_once() {
    let mut q = CommandQueue::new();
    let a = Buffer::create(&mut q, 1, None).unwrap();
    let e = q.enqueue_read(a, NONE).unwrap();
    q.set_callback(e, 42).unwrap();
    assert_eq!(q.set_callback(e, 43), Err(OclError::EventError));
    q.finish().unwrap();
    q.finish().unwrap();
    let fired = q.deliveries();
    assert_eq!(fired.len(), 1);
    assert_eq!(fired[0].context, 42);
    assert_eq!(fired[0].status, 0);
}

#[test]
fn callback_on_completed_event_fires_at_once() {
    let mut q = CommandQueue::new();
    let a = Buffer::create(&mut q, 1, None).unwrap();
    let e = q.enqueue_read(a, NONE).unwrap();
    q.finish().unwrap();
    assert!(q.deliveries().is_empty());
    q.set_callback(e, 7).unwrap();
    assert_eq!(q.deliveries().len(), 1);
    q.finish().unwrap();
    assert_eq!(q.deliveries().len(), 1);
    assert_eq!(q.set_callback(Event { id: 9 }, 1), Err(OclError::DeviceError));
}

#[test]
fn flush_submits_without_running() {
    let mut q = CommandQueue::new();
    let a = Buffer::create(&mut q, 1, None).unwrap();
    let e = q.enqueue_write(a, &[8], NONE).unwrap();
    assert_eq!(q.status(e), Some(EventStatus::Queued));
    q.flush();
    assert_eq!(q.status(e), Some(EventStatus::Submitted));
    q.finish().unwrap();
    assert_eq!(q.status(e), Some(EventStatus::Complete));
    assert_eq!(q.status(Event { id: 5 }), None);
}

#[test]
fn kernel_argument_errors() {
    let mut q = CommandQueue::new();
    let a = Buffer::create(&mut q, 4, None).unwrap();
    let b = Buffer::create(&mut q, 4, None).unwrap();
    let mut k = Kernel::new(KernelEntry::AddScalar)
        .arg_buf_named("src".to_string(), None)
        .arg_scl(1)
        .arg_buf(b);
    assert_eq!(q.enqueue_kernel(&k, NONE), Err(OclError::InvalidGeometry));
    assert_eq!(k.set_geometry(4, Some(3)), Err(OclError::InvalidGeometry));
    assert_eq!(k.set_geometry(0, None), Err(OclError::InvalidGeometry));
    assert_eq!(k.set_geometry(4, Some(2)), Ok(()));
    assert_eq!(q.enqueue_kernel(&k, NONE), Err(OclError::UnboundArgument));
    assert_eq!(k.set_arg_buf_named(&"dst".to_string(), Some(a)), Err(OclError::UnknownArgument));
    k.set_arg_buf_named(&"src".to_string(), Some(a)).unwrap();
    assert!(q.enqueue_kernel(&k, NONE).is_ok());
    k.set_geometry(8, None).unwrap();
    assert_eq!(q.enqueue_kernel(&k, NONE), Err(OclError::DeviceError));
    let wrong = Kernel::new(KernelEntry::AddScalar).arg_scl(1);
    let mut wrong = wrong;
    wrong.set_geometry(1, None).unwrap();
    assert_eq!(q.enqueue_kernel(&wrong, NONE), Err(OclError::DeviceError));
}

#[test]
fn transfer_errors() {
    let mut q = CommandQueue::new();
    let a = Buffer::create(&mut q, 2, None).unwrap();
    let b = Buffer::create(&mut q, 3, None).unwrap();
    assert_eq!(q.write(a, &[1, 2, 3]), Err(OclError::SizeMismatch));
    assert_eq!(q.write(Buffer { id: 7, len: 2 }, &[1, 2]), Err(OclError::DeviceError));
    let mut out = vec![0u32; 3];
    assert_eq!(q.read(a, &mut out), Err(OclError::SizeMismatch));
    assert_eq!(out, vec![0, 0, 0]);
    assert_eq!(q.enqueue_copy(a, b, NONE), Err(OclError::SizeMismatch));
    assert_eq!(q.enqueue_write(a, &[1], NONE), Err(OclError::SizeMismatch));
}

#[test]
fn add_scalar_wraps() {
    let mut q = CommandQueue::new();
    let src = Buffer::create(&mut q, 3, Some(&[u32::MAX, 5, 6][..])).unwrap();
    let dst = Buffer::create(&mut q, 3, Some(&[9, 9, 9][..])).unwrap();
    let k = add_kernel(src, dst, 2, 2);
    q.enqueue_kernel(&k, NONE).unwrap();
    let mut out = vec![0u32; 3];
    q.read(dst, &mut out).unwrap();
    assert_eq!(out, vec![1, 7, 9]);
}

#[test]
fn event_status_moves_forward_only() {
    let mut s = EventStatus::Queued;
    assert_eq!(s.move_to(EventStatus::Running), Ok(()));
    assert_eq!(s.move_to(EventStatus::Submitted), Err(OclError::EventError));
    assert_eq!(s.move_to(EventStatus::Error), Ok(()));
    assert!(s.is_done());
    assert_eq!(s.code(), -1);
    assert_eq!(s.move_to(EventStatus::Complete), Err(OclError::EventError));
    assert_eq!(EventStatus::Complete.code(), 0);
    assert_eq!(EventStatus::Queued.code(), 3);
}

#[test]
fn failed_command_fails_its_dependents() {
    let mut q = CommandQueue::new();
    let a = Buffer::create(&mut q, 2, Some(&[1, 2][..])).unwrap();
    let b = Buffer::create(&mut q, 2, Some(&[0, 0][..])).unwrap();
    let w = q.enqueue_write(a, &[7, 7], NONE).unwrap();
    let c = q.enqueue_copy(a, b, &[w]).unwrap();
    let free = q.enqueue_read(a, NONE).unwrap();
    q.set_callback(c, 5).unwrap();
    assert_eq!(q.mark_failed(w), Ok(()));
    assert_eq!(q.finish(), Err(OclError::EventError));
    assert_eq!(q.status(w), Some(EventStatus::Error));
    assert_eq!(q.status(c), Some(EventStatus::Error));
    assert_eq!(q.status(free), Some(EventStatus::Complete));
    assert_eq!(q.read_result(free), Some(vec![1, 2]));
    let fired = q.deliveries();
    assert_eq!(fired.len(), 1);
    assert_eq!(fired[0].status, -1);
    assert_eq!(fired[0].context, 5);
    let mut out = vec![9u32; 2];
    assert_eq!(q.read(b, &mut out), Ok(()));
    assert_eq!(out, vec![0, 0]);
    assert_eq!(q.mark_failed(w), Err(OclError::EventError));
    assert_eq!(q.mark_failed(Event { id: 40 }), Err(OclError::DeviceError));
}

#[test]
fn blocking_read_reports_failure_before_it() {
    let mut q = CommandQueue::new();
    let a = Buffer::create(&mut q, 1, Some(&[3][..])).unwrap();
    let w = q.enqueue_write(a, &[4], NONE).unwrap();
    q.mark_failed(w).unwrap();
    let mut out = vec![0u32; 1];
    assert_eq!(q.read(a, &mut out), Err(OclError::EventError));
    assert_eq!(out, vec![3]);
}

#[test]
fn rebind_scalar_by_index() {
    let mut q = CommandQueue::new();
    let src = Buffer::create(&mut q, 2, Some(&[1, 2][..])).unwrap();
    let dst = Buffer::create(&mut q, 2, None).unwrap();
    let mut k = add_kernel(src, dst, 1, 2);
    assert_eq!(k.set_arg(1, KernelArg::Scalar(100)), Ok(()));
    assert_eq!(k.set_arg(3, KernelArg::Scalar(1)), Err(OclError::UnknownArgument));
    q.enqueue_kernel(&k, NONE).unwrap();
    let mut out = vec![0u32; 2];
    q.read(dst, &mut out).unwrap();
    assert_eq!(out, vec![101, 102]);
    k.set_arg(1, KernelArg::Buf(src)).unwrap();
    assert_eq!(q.enqueue_kernel(&k, NONE), Err(OclError::DeviceError));
}
