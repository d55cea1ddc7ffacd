use load_balancer::selector::{LoadBalancer, SelectAction, SelectEvent};

fn serve_healthy(lb: &mut LoadBalancer) -> (usize, u64) {
    let mut action = lb.find_available_server_step(SelectEvent::Begin);
    loop {
        action = match action {
            SelectAction::Probe { .. } => lb.find_available_server_step(SelectEvent::Probed(true)),
            SelectAction::Connect { .. } => lb.find_available_server_step(SelectEvent::Connected(true)),
            SelectAction::Selected { backend, conn } => return (backend, conn),
            SelectAction::Unavailable => panic!("no backend selected"),
        }
    }
}

#[test]
fn round_robin_over_three_backends() {
    let mut lb = LoadBalancer::new(3);
    let mut chosen = Vec::new();
    for _ in 0..7 {
        let (backend, conn) = serve_healthy(&mut lb);
        lb.release_connection(backend, conn);
        chosen.push(backend);
    }
    assert_eq!(chosen, vec![0, 1, 2, 0, 1, 2, 0]);
}

#[test]
fn second_lap_reuses_pooled_connections() {
    let mut lb = LoadBalancer::new(2);
    let (b0, c0) = serve_healthy(&mut lb);
    lb.release_connection(b0, c0);
    let (b1, c1) = serve_healthy(&mut lb);
    lb.release_connection(b1, c1);
    assert_eq!(lb.find_available_server_step(SelectEvent::Begin), SelectAction::Probe { backend: 0, conn: c0 });
    assert_eq!(
        lb.find_available_server_step(SelectEvent::Probed(true)),
        SelectAction::Selected { backend: 0, conn: c0 }
    );
    assert_eq!(lb.pool().connections().len(), 2);
}

#[test]
fn failover_to_next_backend() {
    let mut lb = LoadBalancer::new(3);
    assert_eq!(lb.find_available_server_step(SelectEvent::Begin), SelectAction::Connect { backend: 0 });
    assert_eq!(lb.find_available_server_step(SelectEvent::Connected(false)), SelectAction::Connect { backend: 1 });
    assert_eq!(
        lb.find_available_server_step(SelectEvent::Connected(true)),
        SelectAction::Selected { backend: 1, conn: 0 }
    );
    assert_eq!(lb.cursor(), 2);
}

#[test]
fn failover_wraps_around_the_list() {
    let mut lb = LoadBalancer::new(2);
    let (b, c) = serve_healthy(&mut lb);
    assert_eq!(b, 0);
    lb.release_connection(b, c);
    assert_eq!(lb.find_available_server_step(SelectEvent::Begin), SelectAction::Connect { backend: 1 });
    assert_eq!(lb.find_available_server_step(SelectEvent::Connected(false)), SelectAction::Probe { backend: 0, conn: c });
    assert_eq!(
        lb.find_available_server_step(SelectEvent::Probed(true)),
        SelectAction::Selected { backend: 0, conn: c }
    );
    assert_eq!(lb.cursor(), 1);
}

#[test]
fn all_backends_down() {
    let mut lb = LoadBalancer::new(3);
    assert_eq!(lb.find_available_server_step(SelectEvent::Begin), SelectAction::Connect { backend: 0 });
    assert_eq!(lb.find_available_server_step(SelectEvent::Connected(false)), SelectAction::Connect { backend: 1 });
    assert_eq!(lb.find_available_server_step(SelectEvent::Connected(false)), SelectAction::Connect { backend: 2 });
    assert_eq!(lb.find_available_server_step(SelectEvent::Connected(false)), SelectAction::Unavailable);
    assert!(lb.pool().connections().is_empty());
    assert_eq!(lb.cursor(), 0);
}

#[test]
fn all_down_with_stale_idle_connection() {
    let mut lb = LoadBalancer::new(1);
    let (b, c) = serve_healthy(&mut lb);
    lb.release_connection(b, c);
    assert_eq!(lb.find_available_server_step(SelectEvent::Begin), SelectAction::Probe { backend: 0, conn: c });
    assert_eq!(lb.find_available_server_step(SelectEvent::Probed(false)), SelectAction::Connect { backend: 0 });
    assert_eq!(lb.find_available_server_step(SelectEvent::Connected(false)), SelectAction::Unavailable);
    assert!(lb.pool().connections().is_empty());
}

#[test]
fn no_backends_is_unavailable() {
    let mut lb = LoadBalancer::new(0);
    assert_eq!(lb.find_available_server_step(SelectEvent::Begin), SelectAction::Unavailable);
}

#[test]
fn stray_event_outside_a_selection() {
    let mut lb = LoadBalancer::new(2);
    assert_eq!(lb.find_available_server_step(SelectEvent::Connected(true)), SelectAction::Unavailable);
    assert!(lb.pool().connections().is_empty());
}

#[test]
fn evicted_connection_not_probed_again() {
    let mut lb = LoadBalancer::new(1);
    let (b, c) = serve_healthy(&mut lb);
    lb.evict_connection(b, c);
    assert_eq!(lb.find_available_server_step(SelectEvent::Begin), SelectAction::Connect { backend: 0 });
}

#[test]
fn cursor_wraps_after_last_backend() {
    let mut lb = LoadBalancer::new(1);
    assert_eq!(lb.find_available_server_step(SelectEvent::Begin), SelectAction::Connect { backend: 0 });
    assert_eq!(
        lb.find_available_server_step(SelectEvent::Connected(true)),
        SelectAction::Selected { backend: 0, conn: 0 }
    );
    assert_eq!(lb.cursor(), 0);
    let mut three = LoadBalancer::new(3);
    for _ in 0..3 {
        let (b, c) = serve_healthy(&mut three);
        three.release_connection(b, c);
    }
    assert_eq!(three.cursor(), 0);
}
