use librorum_core::data_portal::DataPortalNetworkTransport;
use librorum_core::transport::{
    plan_data_portal, select_transport_mode, ClientIp, PortalPlan, TransportMode,
};

#[test]
fn local_and_unknown_clients_get_shared_memory() {
    assert_eq!(select_transport_mode(None), TransportMode::SharedMemory);
    assert_eq!(select_transport_mode(Some(ClientIp::V4([127, 0, 0, 1]))), TransportMode::SharedMemory);
    assert_eq!(select_transport_mode(Some(ClientIp::V4([127, 9, 8, 7]))), TransportMode::SharedMemory);
    assert_eq!(
        select_transport_mode(Some(ClientIp::V6([0, 0, 0, 0, 0, 0, 0, 1]))),
        TransportMode::SharedMemory
    );
}

#[test]
fn remote_clients_get_the_network() {
    assert_eq!(select_transport_mode(Some(ClientIp::V4([10, 0, 0, 1]))), TransportMode::Network);
    assert_eq!(select_transport_mode(Some(ClientIp::V4([128, 0, 0, 1]))), TransportMode::Network);
    assert_eq!(
        select_transport_mode(Some(ClientIp::V6([0xfe80, 0, 0, 0, 0, 0, 0, 1]))),
        TransportMode::Network
    );
}

#[test]
fn portal_plans() {
    match plan_data_portal("s1", TransportMode::Network, 10) {
        PortalPlan::Network { address } => assert_eq!(address, "127.0.0.1:9090"),
        _ => panic!("expected network"),
    }
    match plan_data_portal("s2", TransportMode::Auto, 3 * 1024 * 1024) {
        PortalPlan::SharedMemory { shm_path, shm_size } => {
            assert_eq!(shm_path, "/librorum_transfer_s2");
            assert_eq!(shm_size, 3 * 1024 * 1024);
        }
        _ => panic!("expected shared memory"),
    }
    match plan_data_portal("s3", TransportMode::SharedMemory, 0) {
        PortalPlan::SharedMemory { shm_size, .. } => assert_eq!(shm_size, 1024 * 1024),
        _ => panic!("expected shared memory"),
    }
}

#[test]
fn portal_address_once_ready() {
    let shm = || plan_data_portal("s", TransportMode::SharedMemory, 1);
    assert_eq!(shm().address_if_ready(true), Some("/librorum_transfer_s".to_string()));
    assert_eq!(shm().address_if_ready(false), None);
    let net = plan_data_portal("s", TransportMode::Network, 1);
    assert_eq!(net.address_if_ready(false), Some("127.0.0.1:9090".to_string()));
}

#[test]
fn network_transport_constructors() {
    let _a = DataPortalNetworkTransport::new();
    let _b = DataPortalNetworkTransport::default();
}
