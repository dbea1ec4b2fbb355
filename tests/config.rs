use kafka_lens::config::{ClusterConfig, Config};
use kafka_lens::state::ApplicationState;

fn names(clusters: &[ClusterConfig]) -> Vec<String> {
    clusters.iter().map(|c| c.name.clone()).collect()
}

#[test]
fn load_holds_three_clusters_with_local_default() {
    let config = Config::load();
    let clusters = config.clusters();
    assert_eq!(names(&clusters), vec!["dev", "prod", "local"]);
    assert_eq!(clusters[0].bootstrap_servers, vec!["192.168.225.10:9092"]);
    assert_eq!(clusters[1].bootstrap_servers, vec!["10.10.18.89:9093"]);
    let current = config.default_cluster_config();
    assert_eq!(current.name, "local");
    assert_eq!(current.bootstrap_servers, vec!["localhost:9092"]);
}

#[test]
fn set_default_cluster_switches_profile() {
    let mut config = Config::load();
    let chosen = config.set_default_cluster("prod").unwrap();
    assert_eq!(chosen.name, "prod");
    assert_eq!(chosen.bootstrap_servers, vec!["10.10.18.89:9093"]);
    assert_eq!(config.default_cluster_config().name, "prod");
}

#[test]
fn set_default_cluster_refuses_unknown_key() {
    let mut config = Config::load();
    let err = config.set_default_cluster("staging").err().unwrap();
    assert_eq!(err, "Cluster key 'staging' does not exist in the config");
    assert_eq!(config.default_cluster_config().name, "local");
}

#[test]
fn copied_profile_is_equal() {
    let c = ClusterConfig { name: "x".to_string(), bootstrap_servers: vec!["a:1".to_string(), "b:2".to_string()] };
    let d = c.copied();
    assert_eq!(d.name, "x");
    assert_eq!(d.bootstrap_servers, vec!["a:1", "b:2"]);
}

#[test]
fn application_state_starts_with_defaults() {
    let state: ApplicationState<u8> = ApplicationState::load();
    assert_eq!(state.config.lock().unwrap().default_cluster_config().name, "local");
    assert!(state.active_consumers.lock().unwrap().active_ids().is_empty());
}

#[test]
fn bootstrap_list_joins_with_commas() {
    let c = ClusterConfig { name: "x".to_string(), bootstrap_servers: vec!["a:1".to_string(), "b:2".to_string(), "c:3".to_string()] };
    assert_eq!(c.bootstrap_list(), "a:1,b:2,c:3");
    let one = ClusterConfig { name: "y".to_string(), bootstrap_servers: vec!["a:1".to_string()] };
    assert_eq!(one.bootstrap_list(), "a:1");
    let none = ClusterConfig { name: "z".to_string(), bootstrap_servers: vec![] };
    assert_eq!(none.bootstrap_list(), "");
}
