use sedly::server::{ConsensusServer, ConsensusServerBuilder, ServerConfig};

#[test]
fn it_works() {
    assert_eq!(2 + 2, 4);
}

#[test]
fn test_server_config() {
    let config = ServerConfig {
        abci_addr: "127.0.0.1:9999".to_string(),
        db_path: "/tmp/test".to_string(),
        max_connections: 50,
    };

    assert_eq!(config.abci_addr, "127.0.0.1:9999");
    assert_eq!(config.db_path, "/tmp/test");
    assert_eq!(config.max_connections, 50);
}

#[test]
fn test_server_builder() {
    let server = ConsensusServerBuilder::new()
        .abci_addr("127.0.0.1:8888")
        .db_path("builder_store")
        .max_connections(25)
        .build()
        .unwrap();

    assert_eq!(server.config().abci_addr, "127.0.0.1:8888");
    assert_eq!(server.config().max_connections, 25);
}

#[test]
fn test_server_creation() {
    let config = ServerConfig {
        abci_addr: "127.0.0.1:26658".to_string(),
        db_path: "creation_store".to_string(),
        max_connections: 100,
    };

    let server = ConsensusServer::new(config);
    assert!(server.is_ok());
}

#[test]
fn test_default_config() {
    let config = ServerConfig::default();
    assert_eq!(config.abci_addr, "127.0.0.1:26658");
    assert_eq!(config.db_path, "./blockchain_data");
    assert_eq!(config.max_connections, 100);
}
