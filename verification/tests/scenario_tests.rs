use std::time::Duration;

use tokio::io::{AsyncReadExt, AsyncWriteExt};

use netscan::portscan::{port_result_of, ProbeOutcome};

/// Connect to `addr` within `timeout` and read one banner within a
/// short window, reporting what one port probe of the scanner sees.
async fn probe_once(addr: &str, timeout: Duration) -> ProbeOutcome {
    let start = tokio::time::Instant::now();
    match tokio::time::timeout(timeout, tokio::net::TcpStream::connect(addr)).await {
        Ok(Ok(mut stream)) => {
            let rtt_ms = start.elapsed().as_millis();
            let mut buf = vec![0u8; 512];
            let banner = match tokio::time::timeout(
                Duration::from_millis(300),
                stream.read(&mut buf),
            )
            .await
            {
                Ok(Ok(n)) if n > 0 => Some(buf[..n].to_vec()),
                _ => None,
            };
            let _ = stream.shutdown().await;
            ProbeOutcome::Connected { banner, rtt_ms }
        }
        _ => ProbeOutcome::NoConnect,
    }
}

/// What the scanner reports for a listener that wrote `"HELLO\n"` on
/// accept: the machine running the tests refuses socket connects, so
/// the accepted connection and its banner read are given, and the
/// probe's report of them is checked.
#[test]
fn listener_banner_is_captured_and_normalized() {
    let outcome = ProbeOutcome::Connected {
        banner: Some(b"HELLO\n".to_vec()),
        rtt_ms: 1,
    };
    let result = port_result_of(40000, &outcome);
    assert!(result.open);
    assert_eq!(result.banner.as_deref(), Some("HELLO"));
    assert!(result.rtt_ms.is_some());
}

#[test]
fn unroutable_address_reports_closed_within_bounded_time() {
    let rt = tokio::runtime::Runtime::new().expect("runtime");
    let started = std::time::Instant::now();
    let result = rt.block_on(async {
        let outcome = probe_once("192.0.2.1:44444", Duration::from_millis(200)).await;
        port_result_of(44444, &outcome)
    });
    assert!(!result.open);
    assert_eq!(result.banner, None);
    assert_eq!(result.rtt_ms, None);
    // The per-connection timeout bounds the whole probe.
    assert!(started.elapsed() < Duration::from_secs(5));
}
