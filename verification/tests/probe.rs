use connection_probe::models::ConnectionTestResult;
use connection_probe::probe::probe_start;
use connection_probe::probe::probe_step;
use connection_probe::probe::ProbeEvent;
use connection_probe::probe::ProbeStep;

/// Drive one full probe, handing the machine the given connect and query
/// outcomes; returns the verdict and the number of sessions left open.
fn run(connect: Result<(), &str>, query: Result<(), &str>) -> (ConnectionTestResult, i32) {
    let mut open = 0;
    let s = probe_start();
    match connect {
        Err(e) => {
            let s = probe_step(
                s,
                ProbeEvent::ConnectRefused {
                    detail: e.to_string(),
                },
            );
            match s {
                ProbeStep::Done { result } => (result, open),
                _ => panic!("probe not finished"),
            }
        }
        Ok(()) => {
            let s = probe_step(s, ProbeEvent::Connected);
            open += 1;
            let s = match query {
                Ok(()) => probe_step(s, ProbeEvent::QueryPassed),
                Err(e) => probe_step(
                    s,
                    ProbeEvent::QueryRejected {
                        detail: e.to_string(),
                    },
                ),
            };
            // whatever the query outcome, the verdict is parked until the
            // session is released
            assert!(matches!(s, ProbeStep::Close { .. }));
            let s = probe_step(s, ProbeEvent::SessionClosed);
            open -= 1;
            match s {
                ProbeStep::Done { result } => (result, open),
                _ => panic!("probe not finished"),
            }
        }
    }
}

#[test]
fn reachable_server_with_working_query() {
    let (r, _) = run(Ok(()), Ok(()));
    assert!(r.success);
    assert_eq!(r.message, "Connection successful!");
    assert!(r.error.is_none());
}

#[test]
fn unreachable_server() {
    let (r, _) = run(Err("connection refused"), Ok(()));
    assert!(!r.success);
    assert_eq!(r.message, "Failed to connect to database");
    assert_eq!(r.error.as_deref(), Some("connection refused"));
    assert!(!r.error.unwrap().is_empty());
}

#[test]
fn bad_credentials_use_the_connect_shape() {
    let (r, _) = run(Err("password authentication failed for user \"u\""), Ok(()));
    assert!(!r.success);
    assert_eq!(r.message, "Failed to connect to database");
    assert!(r.error.is_some());
}

#[test]
fn rejected_liveness_query() {
    let (r, _) = run(Ok(()), Err("permission denied"));
    assert!(!r.success);
    assert_eq!(r.message, "Failed to execute test query");
    assert_eq!(r.error.as_deref(), Some("permission denied"));
}

#[test]
fn same_outcomes_give_same_verdict() {
    let (a, _) = run(Ok(()), Ok(()));
    let (b, _) = run(Ok(()), Ok(()));
    assert_eq!(a.success, b.success);
    assert_eq!(a.message, b.message);
    let (c, _) = run(Err("timeout"), Ok(()));
    let (d, _) = run(Err("timeout"), Ok(()));
    assert_eq!(c.success, d.success);
    assert_eq!(c.error, d.error);
}

#[test]
fn no_session_left_open_on_any_path() {
    for (connect, query) in [
        (Ok(()), Ok(())),
        (Ok(()), Err("permission denied")),
        (Err("connection refused"), Ok(())),
    ] {
        let (_, open) = run(connect, query);
        assert_eq!(open, 0);
    }
}

#[test]
fn verdict_constructors() {
    let s = ConnectionTestResult::successful();
    assert!(s.success);
    assert_eq!(s.message, "Connection successful!");
    assert!(s.error.is_none());

    let c = ConnectionTestResult::connect_failure("no route to host".to_string());
    let q = ConnectionTestResult::query_failure("syntax error".to_string());
    assert!(!c.success && !q.success);
    assert_ne!(c.message, q.message);
    assert_eq!(c.error.as_deref(), Some("no route to host"));
    assert_eq!(q.error.as_deref(), Some("syntax error"));
}
