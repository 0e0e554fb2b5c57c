use mux::command::CommandBuilder;
use mux::config::ConfigSnapshot;
use mux::domain::{spawn, split_pane, Domain, HostPort, LocalDomain, PtyHandles, SplitSource};
use mux::errors::DomainError;
use mux::ids::IdAllocator;
use mux::registry::{
    PaneEntry, Registry, SplitDirection, SplitRequest, Tab, TermSize,
};

fn host_ok() -> HostPort {
    HostPort {
        command_response: None,
        label_response: None,
        cwd_readable: true,
        pty: Some(PtyHandles { master: 7, child: 8 }),
        shell: "sh".to_string(),
    }
}

fn size_80x24() -> TermSize {
    TermSize { rows: 24, cols: 80 }
}

fn entry(pane_id: usize, handle: usize) -> PaneEntry {
    PaneEntry {
        pane_id,
        domain_id: 0,
        process_handle: handle,
        pty_handle: handle + 100,
        size: size_80x24(),
        conpty_quirks: false,
        description: "test".to_string(),
    }
}

#[test]
fn spawn_with_defaults_creates_one_tab_with_one_pane() {
    let mut ids = IdAllocator::new();
    let mut reg = Registry::new();
    assert!(reg.add_window(500));
    let mut config = ConfigSnapshot::new();
    config.default_prog = Some(vec!["/bin/sh".to_string()]);
    config.default_cwd = Some("/tmp".to_string());
    let d = LocalDomain::new("local", &mut ids).unwrap();
    let host = host_ok();
    let tab_id = spawn(&d, &mut reg, &mut ids, &config, &host, size_80x24(), None, None, 500)
        .unwrap();
    assert_eq!(reg.tabs.len(), 1);
    assert_eq!(reg.panes.len(), 1);
    assert_eq!(reg.tabs[0].tab_id, tab_id);
    assert_eq!(reg.tabs[0].panes.len(), 1);
    assert_eq!(reg.tabs[0].panes[0], reg.panes[0].pane_id);
    assert_eq!(reg.panes[0].description, "\"/bin/sh\" in domain \"local\"");
    assert_eq!(reg.panes[0].process_handle, 8);
    assert_eq!(reg.panes[0].pty_handle, 7);
    assert_eq!(reg.windows[0].tabs, vec![tab_id]);
    assert_eq!(reg.windows[0].active_tab, Some(tab_id));
}

#[test]
fn spawn_into_missing_window_leaves_orphan_session() {
    let mut ids = IdAllocator::new();
    let mut reg = Registry::new();
    let config = ConfigSnapshot::new();
    let d = LocalDomain::new("local", &mut ids).unwrap();
    let host = host_ok();
    let r = spawn(&d, &mut reg, &mut ids, &config, &host, size_80x24(), None, None, 77);
    assert!(matches!(r, Err(DomainError::NotFound(77))));
    // no rollback: the session and its container stay registered
    assert_eq!(reg.panes.len(), 1);
    assert_eq!(reg.tabs.len(), 1);
    assert!(reg.windows.is_empty());
}

#[test]
fn spawn_fails_with_resource_error_when_pty_allocation_fails() {
    let mut ids = IdAllocator::new();
    let mut reg = Registry::new();
    reg.add_window(1);
    let config = ConfigSnapshot::new();
    let d = LocalDomain::new("local", &mut ids).unwrap();
    let mut host = host_ok();
    host.pty = None;
    let r = spawn(&d, &mut reg, &mut ids, &config, &host, size_80x24(), None, None, 1);
    assert!(matches!(r, Err(DomainError::ResourceError)));
    assert!(reg.panes.is_empty());
    assert!(reg.tabs.is_empty());
}

fn two_tab_registry() -> Registry {
    // T1 (id 10) holds pane 0; T2 (id 11) holds panes 1 and 2.
    let mut reg = Registry::new();
    assert!(reg.add_pane(entry(0, 40)));
    assert!(reg.add_pane(entry(1, 41)));
    assert!(reg.add_pane(entry(2, 42)));
    let mut t1 = Tab::new(10, size_80x24());
    t1.assign_pane(0);
    let mut t2 = Tab::new(11, size_80x24());
    t2.assign_pane(1);
    let mut t2b = t2;
    t2b.panes.push(2);
    assert!(reg.add_tab_and_active_pane(t1));
    assert!(reg.add_tab_and_active_pane(t2b));
    assert!(reg.add_window(100));
    assert!(reg.add_tab_to_window(10, 100));
    assert!(reg.add_tab_to_window(11, 100));
    reg
}

#[test]
fn split_move_pane_between_tabs_deletes_emptied_source() {
    let mut ids = IdAllocator::new();
    ids.next = 20;
    let mut reg = two_tab_registry();
    let config = ConfigSnapshot::new();
    let d = LocalDomain::new("local", &mut ids).unwrap();
    let host = host_ok();
    let panes_before: Vec<usize> = reg.panes.iter().map(|e| e.process_handle).collect();
    let req = SplitRequest { direction: SplitDirection::Horizontal, target_is_second: true };
    let p = split_pane(&d, &mut reg, &mut ids, &config, &host, SplitSource::MovePane(0), 11, 1, req)
        .unwrap();
    assert_eq!(p, 0);
    // the emptied source container is gone and no longer resolvable
    assert!(reg.get_tab_index(10).is_none());
    assert_eq!(reg.tabs.len(), 1);
    // the target gained the pane at the requested position
    assert_eq!(reg.tabs[0].tab_id, 11);
    assert_eq!(reg.tabs[0].panes, vec![1, 0, 2]);
    // the moved session keeps its process handle identity: nothing restarted
    let panes_after: Vec<usize> = reg.panes.iter().map(|e| e.process_handle).collect();
    assert_eq!(panes_before, panes_after);
    assert_eq!(reg.panes.len(), 3);
    // the pane is in exactly one container
    let holders = reg.tabs.iter().filter(|t| t.panes.contains(&0)).count();
    assert_eq!(holders, 1);
    // the window no longer lists the removed container
    assert_eq!(reg.windows[0].tabs, vec![11]);
}

#[test]
fn split_move_pane_from_multi_pane_tab_keeps_source() {
    let mut ids = IdAllocator::new();
    ids.next = 20;
    let mut reg = two_tab_registry();
    let config = ConfigSnapshot::new();
    let d = LocalDomain::new("local", &mut ids).unwrap();
    let host = host_ok();
    let req = SplitRequest { direction: SplitDirection::Horizontal, target_is_second: false };
    // move pane 2 out of T2 into T1 next to pane 0
    let p = split_pane(&d, &mut reg, &mut ids, &config, &host, SplitSource::MovePane(2), 10, 0, req)
        .unwrap();
    assert_eq!(p, 2);
    assert_eq!(reg.tabs.len(), 2);
    assert_eq!(reg.tabs[0].panes, vec![2, 0]);
    assert_eq!(reg.tabs[1].panes, vec![1]);
}

#[test]
fn split_move_within_same_tab_repositions() {
    let mut ids = IdAllocator::new();
    ids.next = 20;
    let mut reg = two_tab_registry();
    let config = ConfigSnapshot::new();
    let d = LocalDomain::new("local", &mut ids).unwrap();
    let host = host_ok();
    let req = SplitRequest { direction: SplitDirection::Horizontal, target_is_second: false };
    // move pane 2 out of T2 and back in, before pane 1
    let p = split_pane(&d, &mut reg, &mut ids, &config, &host, SplitSource::MovePane(2), 11, 1, req)
        .unwrap();
    assert_eq!(p, 2);
    assert_eq!(reg.tabs[0].panes, vec![0]);
    assert_eq!(reg.tabs[1].panes, vec![2, 1]);
}

#[test]
fn split_move_within_same_tab_with_stale_position_fails() {
    let mut ids = IdAllocator::new();
    ids.next = 20;
    let mut reg = two_tab_registry();
    let config = ConfigSnapshot::new();
    let d = LocalDomain::new("local", &mut ids).unwrap();
    let host = host_ok();
    let req = SplitRequest { direction: SplitDirection::Horizontal, target_is_second: true };
    // removing pane 1 first shrinks T2, so the recorded position of
    // pane 2 is out of range for the insert
    let r = split_pane(&d, &mut reg, &mut ids, &config, &host, SplitSource::MovePane(1), 11, 2, req);
    assert!(matches!(r, Err(DomainError::InvalidSplitIndex(1))));
    // the removed session is in no container; the pane table still has it
    assert_eq!(reg.tabs[1].panes, vec![2]);
    let holders = reg.tabs.iter().filter(|t| t.panes.contains(&1)).count();
    assert_eq!(holders, 0);
    assert_eq!(reg.panes.len(), 3);
}

#[test]
fn split_spawn_installs_fresh_pane() {
    let mut ids = IdAllocator::new();
    ids.next = 20;
    let mut reg = two_tab_registry();
    let config = ConfigSnapshot::new();
    let d = LocalDomain::new("local", &mut ids).unwrap();
    let host = host_ok();
    let req = SplitRequest { direction: SplitDirection::Vertical, target_is_second: true };
    let p = split_pane(
        &d,
        &mut reg,
        &mut ids,
        &config,
        &host,
        SplitSource::Spawn { command: None, command_dir: None },
        11,
        2,
        req,
    )
    .unwrap();
    assert_eq!(reg.panes.len(), 4);
    assert_eq!(reg.tabs[1].panes, vec![1, 2, p]);
    let holders = reg.tabs.iter().filter(|t| t.panes.contains(&p)).count();
    assert_eq!(holders, 1);
    // the fresh session was spawned at the second target size of the split
    assert_eq!(reg.panes[3].pane_id, p);
    assert_eq!(reg.panes[3].size, TermSize { rows: 12, cols: 80 });
}

#[test]
fn split_with_unsplittable_size_fails_and_mutates_nothing() {
    let mut ids = IdAllocator::new();
    ids.next = 20;
    let mut reg = Registry::new();
    assert!(reg.add_pane(entry(0, 40)));
    assert!(reg.add_pane(entry(1, 41)));
    let mut t = Tab::new(10, TermSize { rows: 24, cols: 2 });
    t.assign_pane(0);
    t.panes.push(1);
    assert!(reg.add_tab_and_active_pane(t));
    let config = ConfigSnapshot::new();
    let d = LocalDomain::new("local", &mut ids).unwrap();
    let host = host_ok();
    let req = SplitRequest { direction: SplitDirection::Horizontal, target_is_second: true };
    let r = split_pane(&d, &mut reg, &mut ids, &config, &host, SplitSource::MovePane(0), 10, 1, req);
    assert!(matches!(r, Err(DomainError::InvalidSplitIndex(1))));
    assert_eq!(reg.tabs.len(), 1);
    assert_eq!(reg.tabs[0].panes, vec![0, 1]);
    assert_eq!(reg.panes.len(), 2);
}

#[test]
fn compute_split_size_rejects_out_of_range_index() {
    let mut t = Tab::new(1, size_80x24());
    t.assign_pane(0);
    t.panes.push(1);
    let req = SplitRequest { direction: SplitDirection::Horizontal, target_is_second: true };
    assert!(t.compute_split_size(5, req).is_none());
    assert!(t.compute_split_size(1, req).is_some());
}

#[test]
fn compute_split_size_divides_evenly_with_divider() {
    let mut t = Tab::new(1, TermSize { rows: 10, cols: 9 });
    t.assign_pane(0);
    let h = SplitRequest { direction: SplitDirection::Horizontal, target_is_second: false };
    let s = t.compute_split_size(0, h).unwrap();
    assert_eq!(s.first, TermSize { rows: 10, cols: 4 });
    assert_eq!(s.second, TermSize { rows: 10, cols: 4 });
    let v = SplitRequest { direction: SplitDirection::Vertical, target_is_second: false };
    let s2 = t.compute_split_size(0, v).unwrap();
    assert_eq!(s2.first, TermSize { rows: 4, cols: 9 });
    assert_eq!(s2.second, TermSize { rows: 5, cols: 9 });
}

#[test]
fn split_invalid_tab_and_pane_errors() {
    let mut ids = IdAllocator::new();
    ids.next = 20;
    let mut reg = two_tab_registry();
    let config = ConfigSnapshot::new();
    let d = LocalDomain::new("local", &mut ids).unwrap();
    let host = host_ok();
    let req = SplitRequest { direction: SplitDirection::Horizontal, target_is_second: true };
    let r = split_pane(
        &d,
        &mut reg,
        &mut ids,
        &config,
        &host,
        SplitSource::MovePane(0),
        99,
        1,
        req,
    );
    assert!(matches!(r, Err(DomainError::InvalidContainer(99))));
    let r2 = split_pane(
        &d,
        &mut reg,
        &mut ids,
        &config,
        &host,
        SplitSource::MovePane(0),
        11,
        0,
        req,
    );
    assert!(matches!(r2, Err(DomainError::InvalidSession(0))));
    let r3 = split_pane(
        &d,
        &mut reg,
        &mut ids,
        &config,
        &host,
        SplitSource::MovePane(55),
        11,
        1,
        req,
    );
    assert!(matches!(r3, Err(DomainError::NotFound(55))));
}

#[test]
fn lifecycle_of_local_domain() {
    let mut ids = IdAllocator::new();
    let d = LocalDomain::new("local", &mut ids).unwrap();
    assert_eq!(d.domain_id(), 0);
    assert_eq!(d.domain_name(), "local");
    assert!(d.spawnable());
    assert_eq!(d.state(), mux::domain::DomainState::Attached);
    assert!(d.attach(None).is_ok());
    assert!(matches!(d.detach(), Err(DomainError::UnsupportedOperation)));
    d.local_window_is_closing(3);
}

#[test]
fn id_allocator_is_monotonic_and_shared() {
    let mut ids = IdAllocator::new();
    let a = mux::ids::alloc_domain_id(&mut ids);
    let b = mux::ids::alloc_pane_id(&mut ids);
    let c = mux::ids::alloc_tab_id(&mut ids);
    assert_eq!((a, b, c), (0, 1, 2));
}

#[test]
fn resolve_pane_id_walks_windows_tabs_and_panes() {
    let reg = two_tab_registry();
    assert_eq!(reg.resolve_pane_id(2), Some((0, 100, 11)));
    assert_eq!(reg.resolve_pane_id(9), None);
    let mut builder = CommandBuilder::new();
    builder.set_cwd("/x".to_string());
    assert_eq!(builder.cwd, Some("/x".to_string()));
}
