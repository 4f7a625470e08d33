use delivery_core::chronicle::{
    build_healthcheck, decimal_string, healthcheck_response, ChronicleError, ChronicleService,
    ChronicleUnstructuredConfig, GcsHealthcheckError, Region,
};
use delivery_core::batcher::BatchConfig;
use delivery_core::template::{Template, TemplatePart};
use delivery_core::vector_source::{Output, Resource, SocketListenAddr, TlsSourceConfig, VectorConfig};

fn config(endpoint: Option<&str>, region: Option<Region>) -> ChronicleUnstructuredConfig {
    ChronicleUnstructuredConfig {
        endpoint: endpoint.map(|s| s.to_string()),
        region,
        customer_id: "cust-1".to_string(),
        log_type: Template { parts: vec![TemplatePart::Field("level".to_string())] },
        batch: BatchConfig { max_bytes: 1000, max_events: 2, timeout_ms: 1000 },
        rate_limit_num: None,
    }
}

#[test]
fn both_endpoint_and_region_is_an_error() {
    let c = config(Some("http://localhost:8080"), Some(Region::Us));
    assert_eq!(c.build_endpoints().unwrap_err(), ChronicleError::BothRegionAndEndpoint);
    assert_eq!(
        c.build_endpoints().unwrap_err().message(),
        "You can only specify one of region or endpoint"
    );
    let c = config(None, None);
    assert_eq!(c.create_endpoint("v2/logtypes").unwrap_err(), ChronicleError::RegionOrEndpoint);
}

#[test]
fn endpoint_selection() {
    let c = config(Some("http://localhost:8080//"), None);
    let (ingest, health) = c.build_endpoints().unwrap();
    assert_eq!(ingest, "http://localhost:8080/v2/unstructuredlogentries:batchCreate");
    assert_eq!(health, "http://localhost:8080/v2/logtypes");
    let c = config(None, Some(Region::Eu));
    assert_eq!(
        c.create_endpoint("v2/logtypes").unwrap(),
        "https://europe-malachiteingestion-pa.googleapis.com/v2/logtypes"
    );
    assert_eq!(Region::Asia.endpoint(), "https://asia-southeast1-malachiteingestion-pa.googleapis.com");
    assert_eq!(config(None, Some(Region::Us)).rate_limit(), 1000);
}

#[test]
fn request_headers_give_length() {
    let svc = ChronicleService::new("http://x".to_string());
    let h = svc.request_headers(&"héllo".to_string());
    assert_eq!(h[0], ("content-type".to_string(), "application/json".to_string()));
    assert_eq!(h[1], ("content-length".to_string(), "6".to_string()));
    assert_eq!(decimal_string(0), "0");
    assert_eq!(decimal_string(1234567890), "1234567890");
}

#[test]
fn healthcheck_checks() {
    assert_eq!(build_healthcheck("https://example.com/v2/logtypes").unwrap().uri, "https://example.com/v2/logtypes");
    assert_eq!(build_healthcheck("not a uri").unwrap_err(), GcsHealthcheckError::InvalidUri);
    assert_eq!(healthcheck_response(200), Ok(()));
    assert_eq!(healthcheck_response(404), Err(GcsHealthcheckError::NotFound));
    assert_eq!(healthcheck_response(403), Err(GcsHealthcheckError::InvalidCredentials));
    assert_eq!(healthcheck_response(502), Err(GcsHealthcheckError::UnexpectedStatus { status: 502 }));
}

#[test]
fn generate_config() {
    let c = VectorConfig::generate_config();
    assert_eq!(c.address, SocketListenAddr::SocketAddr { host: "0.0.0.0".to_string(), port: 9000 });
    assert_eq!(c.shutdown_timeout_secs, 30);
    assert!(c.keepalive.is_none() && c.tls.is_none() && c.receive_buffer_bytes.is_none());
}

#[test]
fn vector_source_settings() {
    let mut c = VectorConfig::from_address(SocketListenAddr::SystemdFd { offset: 2 });
    assert_eq!(c.resources(), vec![Resource::SystemFdOffset { offset: 2 }]);
    assert_eq!(c.outputs(), vec![Output { log: true, metric: true, trace: true }]);
    assert_eq!(c.source_type(), "vector");
    let tls = TlsSourceConfig { enabled: Some(true), crt_file: None, key_file: None, client_metadata_key: None };
    c.set_tls(Some(tls.clone()));
    assert_eq!(c.tls, Some(tls));
    assert_eq!(c.shutdown_timeout_secs, 30);
}
