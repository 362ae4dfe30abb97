use tashi_swarm::analyst::{analyst_prompt, AnalystBuffer};
use tashi_swarm::config::{find_config, numbered_configs, peer_configs, portal_port, state_port, workspace_root_index, NodeConfig};
use tashi_swarm::feed::accept_feed;
use tashi_swarm::node_state::{NodeState, StateSnapshot};
use tashi_swarm::records::{DroneFix, Duplicate, LogRecord, SurvivorPing, SwarmMessage};
use tashi_swarm::text::{key_less, key_suffix};

fn rec(id: &str, key: &str, lat: f64, lon: f64) -> LogRecord {
    LogRecord {
        id: id.to_string(),
        latitude_bits: lat.to_bits(),
        longitude_bits: lon.to_bits(),
        public_key_hex: key.to_string(),
    }
}

fn ping(device: &str, lat: f64, lon: f64) -> SurvivorPing {
    SurvivorPing { device_id: device.to_string(), lat_bits: lat.to_bits(), lon_bits: lon.to_bits() }
}

fn cfg(id: u16, port: u16) -> NodeConfig {
    NodeConfig { id, port, secret_key: format!("s{}", id), public_key: format!("p{}", id) }
}

fn sorted_fixes(mut fixes: Vec<DroneFix>) -> Vec<(String, u64, f64, f64)> {
    fixes.sort_by(|a, b| a.public_key_hex.cmp(&b.public_key_hex));
    fixes
        .into_iter()
        .map(|f| (f.public_key_hex, f.ts, f64::from_bits(f.latitude_bits), f64::from_bits(f.longitude_bits)))
        .collect()
}

fn drone_keys(s: &StateSnapshot) -> Vec<String> {
    s.drones.iter().map(|d| d.public_key_hex.clone()).collect()
}

#[test]
fn key_order_is_lexicographic() {
    assert!(key_less(&"abc".to_string(), &"abd".to_string()));
    assert!(key_less(&"ab".to_string(), &"abc".to_string()));
    assert!(!key_less(&"abc".to_string(), &"ab".to_string()));
    assert!(!key_less(&"abc".to_string(), &"abc".to_string()));
    assert!(key_less(&"".to_string(), &"a".to_string()));
    assert!(key_less(&"Z".to_string(), &"a".to_string()));
    assert!(key_less(&"a".to_string(), &"é".to_string()));
}

#[test]
fn key_suffix_takes_last_eight_bytes() {
    assert_eq!(key_suffix("0123456789abcdef"), "89abcdef");
    assert_eq!(key_suffix("abcdefgh"), "abcdefgh");
    assert_eq!(key_suffix("abc"), "abc");
    assert_eq!(key_suffix(""), "");
}

#[test]
fn window_keeps_latest_events() {
    let mut buf = AnalystBuffer::new(2);
    buf.push(1, rec("a", "k1", 1.0, 1.0));
    buf.push(2, rec("b", "k2", 2.0, 2.0));
    buf.push(3, rec("c", "k3", 3.0, 3.0));
    let fixes = sorted_fixes(buf.snapshot_latest_per_drone());
    assert_eq!(fixes, vec![("k2".to_string(), 2, 2.0, 2.0), ("k3".to_string(), 3, 3.0, 3.0)]);
}

#[test]
fn window_of_capacity_zero_keeps_one_event() {
    let mut buf = AnalystBuffer::new(0);
    buf.push(1, rec("a", "k1", 1.0, 1.0));
    buf.push(2, rec("b", "k2", 2.0, 2.0));
    let fixes = sorted_fixes(buf.snapshot_latest_per_drone());
    assert_eq!(fixes, vec![("k2".to_string(), 2, 2.0, 2.0)]);
}

#[test]
fn empty_window_reports_nothing() {
    let buf = AnalystBuffer::new(256);
    assert!(buf.snapshot_latest_per_drone().is_empty());
}

#[test]
fn latest_fix_per_drone_takes_greatest_timestamp() {
    let mut buf = AnalystBuffer::new(256);
    buf.push(5, rec("a", "k1", 1.0, 1.0));
    buf.push(9, rec("b", "k1", 2.0, 2.0));
    buf.push(9, rec("c", "k1", 3.0, 3.0));
    buf.push(3, rec("d", "k1", 4.0, 4.0));
    buf.push(7, rec("e", "k2", 5.0, 5.0));
    let fixes = sorted_fixes(buf.snapshot_latest_per_drone());
    assert_eq!(fixes, vec![("k1".to_string(), 9, 2.0, 2.0), ("k2".to_string(), 7, 5.0, 5.0)]);
}

#[test]
fn analyst_prompt_prefixes_payload() {
    assert_eq!(analyst_prompt("[]"), "Swarm state (latest fix per drone):\n[]");
}

#[test]
fn telemetry_keeps_latest_record_per_drone() {
    let mut st = NodeState::new(3);
    st.apply_telemetry(rec("a", "k2", 1.0, 1.0));
    st.apply_telemetry(rec("b", "k1", 2.0, 2.0));
    st.apply_telemetry(rec("c", "k2", 3.0, 3.0));
    let snap = st.snapshot();
    assert_eq!(snap.node_id, 3);
    assert_eq!(drone_keys(&snap), vec!["k1".to_string(), "k2".to_string()]);
    assert_eq!(snap.drones[1].id, "c");
    assert_eq!(f64::from_bits(snap.drones[1].latitude_bits), 3.0);
    assert!(snap.survivors.is_empty());
    assert_eq!(snap.analyst, None);
}

#[test]
fn survivors_are_listed_by_device_id() {
    let mut st = NodeState::new(1);
    st.apply_survivor(ping("survivor_9", 1.0, 2.0));
    st.apply_survivor(ping("survivor_1", 3.0, 4.0));
    st.apply_survivor(ping("survivor_9", 5.0, 6.0));
    let snap = st.snapshot();
    let ids: Vec<String> = snap.survivors.iter().map(|p| p.device_id.clone()).collect();
    assert_eq!(ids, vec!["survivor_1".to_string(), "survivor_9".to_string()]);
    assert_eq!(f64::from_bits(snap.survivors[1].lat_bits), 5.0);
    assert!(snap.drones.is_empty());
}

#[test]
fn analyst_slot_publishes_summary() {
    let mut st = NodeState::new(1);
    *st.analyst_slot() = Some("Swarm holding formation.".to_string());
    st.apply_telemetry(rec("a", "k", 0.0, 0.0));
    assert_eq!(st.snapshot().analyst, Some("Swarm holding formation.".to_string()));
}

#[test]
fn snapshot_does_not_depend_on_write_order() {
    let writes = vec![rec("a", "kc", 1.0, 1.0), rec("b", "ka", 2.0, 2.0), rec("c", "kb", 3.0, 3.0)];
    let mut s1 = NodeState::new(1);
    for w in writes.iter() {
        s1.apply_telemetry(w.duplicate());
    }
    let mut s2 = NodeState::new(1);
    for w in writes.iter().rev() {
        s2.apply_telemetry(w.duplicate());
    }
    let a = s1.snapshot();
    let b = s2.snapshot();
    assert_eq!(drone_keys(&a), vec!["ka".to_string(), "kb".to_string(), "kc".to_string()]);
    assert_eq!(drone_keys(&a), drone_keys(&b));
    let ids_a: Vec<String> = a.drones.iter().map(|d| d.id.clone()).collect();
    let ids_b: Vec<String> = b.drones.iter().map(|d| d.id.clone()).collect();
    assert_eq!(ids_a, ids_b);
}

#[test]
fn confirmed_telemetry_reaches_state_and_window() {
    let mut st = NodeState::new(2);
    let mut buf = AnalystBuffer::new(256);
    let persist = st.apply_message(&mut buf, 42, SwarmMessage::DroneTelemetry(rec("a", "k1", 1.5, 2.5)));
    assert!(persist.is_none());
    assert_eq!(drone_keys(&st.snapshot()), vec!["k1".to_string()]);
    assert_eq!(sorted_fixes(buf.snapshot_latest_per_drone()), vec![("k1".to_string(), 42, 1.5, 2.5)]);
}

#[test]
fn confirmed_survivor_is_handed_back_for_storage() {
    let mut st = NodeState::new(2);
    let mut buf = AnalystBuffer::new(256);
    let persist = st.apply_message(&mut buf, 7, SwarmMessage::SurvivorLocated(ping("survivor_5", 1.0, 2.0)));
    let p = persist.expect("a survivor ping is persisted");
    assert_eq!(p.device_id, "survivor_5");
    assert_eq!(f64::from_bits(p.lon_bits), 2.0);
    assert_eq!(st.snapshot().survivors.len(), 1);
    assert!(buf.snapshot_latest_per_drone().is_empty());
}

#[test]
fn fresh_feed_submits_own_records() {
    let mut last = "0".to_string();
    let data = vec![rec("1", "me", 1.0, 1.0), rec("2", "other", 2.0, 2.0), rec("3", "me", 3.0, 3.0)];
    let submit = accept_feed(&mut last, "17".to_string(), data, &"me".to_string());
    assert_eq!(last, "17");
    let ids: Vec<String> = submit.iter().map(|r| r.id.clone()).collect();
    assert_eq!(ids, vec!["1".to_string(), "3".to_string()]);
}

#[test]
fn repeated_feed_version_submits_nothing() {
    let mut last = "17".to_string();
    let data = vec![rec("1", "me", 1.0, 1.0)];
    let submit = accept_feed(&mut last, "17".to_string(), data, &"me".to_string());
    assert_eq!(last, "17");
    assert!(submit.is_empty());
}

#[test]
fn empty_feed_keeps_last_version() {
    let mut last = "17".to_string();
    let submit = accept_feed(&mut last, "18".to_string(), Vec::new(), &"me".to_string());
    assert_eq!(last, "17");
    assert!(submit.is_empty());
}

#[test]
fn fresh_feed_without_own_records_still_advances() {
    let mut last = "1".to_string();
    let submit = accept_feed(&mut last, "2".to_string(), vec![rec("1", "other", 0.0, 0.0)], &"me".to_string());
    assert_eq!(last, "2");
    assert!(submit.is_empty());
}

#[test]
fn nearest_directory_with_lock_file_wins() {
    assert_eq!(workspace_root_index(&vec![false, true, true]), Some(1));
    assert_eq!(workspace_root_index(&vec![true]), Some(0));
    assert_eq!(workspace_root_index(&vec![false, false]), None);
    assert_eq!(workspace_root_index(&Vec::new()), None);
}

#[test]
fn simulator_swarm_is_numbered_from_one() {
    let keys: Vec<(String, String)> = (1..=5).map(|i| (format!("s{}", i), format!("p{}", i))).collect();
    let configs = numbered_configs(keys, 8000);
    let ids: Vec<u16> = configs.iter().map(|c| c.id).collect();
    let ports: Vec<u16> = configs.iter().map(|c| c.port).collect();
    assert_eq!(ids, vec![1, 2, 3, 4, 5]);
    assert_eq!(ports, vec![8001, 8002, 8003, 8004, 8005]);
    assert_eq!(configs[2].secret_key, "s3");
    assert_eq!(configs[2].public_key, "p3");
}

#[test]
fn warmup_swarm_uses_ports_9001_to_9003() {
    let keys: Vec<(String, String)> = (0..3).map(|i| (format!("s{}", i), format!("p{}", i))).collect();
    let configs = numbered_configs(keys, 9000);
    let ports: Vec<u16> = configs.iter().map(|c| c.port).collect();
    assert_eq!(ports, vec![9001, 9002, 9003]);
    assert_eq!(configs[0].id, 1);
}

#[test]
fn node_finds_its_first_config() {
    let configs = vec![cfg(1, 8001), cfg(2, 8002), cfg(2, 9999)];
    assert_eq!(find_config(&configs, 2), Some(1));
    assert_eq!(find_config(&configs, 1), Some(0));
    assert_eq!(find_config(&configs, 7), None);
}

#[test]
fn peers_are_the_other_nodes_in_order() {
    let configs = vec![cfg(1, 8001), cfg(2, 8002), cfg(3, 8003)];
    let peers = peer_configs(&configs, 2);
    let ids: Vec<u16> = peers.iter().map(|c| c.id).collect();
    assert_eq!(ids, vec![1, 3]);
    assert_eq!(peers[1].public_key, "p3");
    assert_eq!(peer_configs(&configs, 9).len(), 3);
}

#[test]
fn node_ports_follow_convention() {
    assert_eq!(portal_port(1), 8001);
    assert_eq!(state_port(1), 9001);
    assert_eq!(state_port(3), 9003);
}
