use fcp::frame::decode_frame;
use fcp::scan::{make_entry, Manifest};
use fcp::scheduler::{Action, Dispatcher};
use fcp::transfer::{frame_file, plan_task, select_backend, Backend};

#[test]
fn backend_chosen_from_destination() {
    match select_backend("u@h:/srv").unwrap() {
        Backend::RemoteShell { ssh_dest, root } => {
            assert_eq!(ssh_dest, "u@h");
            assert_eq!(root, "/srv");
        }
        other => panic!("unexpected {:?}", other),
    }
    assert!(matches!(select_backend("out").unwrap(), Backend::Local { .. }));
    assert!(select_backend("u@h:a:b").is_err());
}

#[test]
fn task_paths() {
    let t = plan_task("src", "/dst", "b/c.bin");
    assert_eq!(t.source, "src/b/c.bin");
    assert_eq!(t.target, "/dst/b/c.bin");
    assert_eq!(t.target_dir, "/dst/b");
}

#[test]
fn two_files_copied_locally_with_two_slots() {
    let files: Vec<(&str, Vec<u8>)> = vec![("a.txt", vec![b'x'; 5000]), ("b/c.bin", (0..10u8).collect())];
    let mut m = Manifest::new();
    for (p, c) in &files {
        m.add(make_entry(p.to_string(), c.len() as u64, 0, c)).unwrap();
    }
    let mut d = Dispatcher::new(m.len(), 2).ok().unwrap();
    let mut written: Vec<Option<Vec<u8>>> = vec![None; m.len()];
    let mut running = Vec::new();
    loop {
        match d.next_action() {
            Action::Start(i) => running.push(i),
            Action::Wait => {
                let i = running.pop().unwrap();
                let frame = frame_file(m.get(i), &files[i].1);
                let ok = frame.is_some();
                written[i] = frame;
                d.complete(i, ok);
            }
            Action::Done => break,
        }
    }
    assert_eq!(d.succeeded(), 2);
    assert!(d.failed().is_empty());
    for (i, (p, c)) in files.iter().enumerate() {
        let (h, payload) = decode_frame(written[i].as_ref().unwrap()).unwrap();
        assert_eq!(h.relative_path, *p);
        assert_eq!(&payload, c);
    }
    assert!(m.get(0).compressible);
    assert!(!m.get(1).compressible);
}
