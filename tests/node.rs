use damn_vuln_blockchain::asset::Stake;
use damn_vuln_blockchain::config::{Mode, ModeActor};
use damn_vuln_blockchain::discovery::Network;
use damn_vuln_blockchain::error::PeerError;
use damn_vuln_blockchain::payload::{Peer, Tx, ValidateTx};
use damn_vuln_blockchain::Config;

fn peer(id: &str, ip: &str) -> Peer {
    Peer { id: id.into(), ip: ip.into() }
}

/// A node with an empty asset ledger expecting three peers, admitted into
/// its own network.
fn init_network(mode: Mode) -> Config {
    let mut config = Config::new("test.bastsense.net", "localhost:7003", "localhost:7000", 3, Mode::Normal);
    config.mode.set_mode(mode);
    let id = config.peer_id.clone();
    config.asset_ledger.init_network(config.init_network_size, &id);
    config
}

/// The same, on a ledger holding the minted catalog.
fn init_network_with_assets(mode: Mode) -> Config {
    let mut config = Config::new("test.bastsense.net", "localhost:7003", "localhost:7000", 3, Mode::Auditor);
    config.mode.set_mode(mode);
    let id = config.peer_id.clone();
    config.asset_ledger.init_network(config.init_network_size, &id);
    config
}

fn prepare_default_stake(config: &Config) -> Vec<String> {
    config
        .asset_ledger
        .get_peer_assets(&config.peer_id)
        .iter()
        .map(|a| a.get_hash().to_owned())
        .collect()
}

#[test]
fn mode_actor_works() {
    let mut mode = ModeActor::new(Mode::Auditor);
    assert_eq!(Mode::Auditor, mode.get_mode());
    mode.set_mode(Mode::Attacker(true));
    assert_eq!(Mode::Attacker(true), mode.get_mode());
}

#[test]
fn network_actor_works() {
    let mut network = Network::default();
    let p = peer("one.example.com", "1.1.1.1:8080");
    network.add_peer(p.clone());
    assert_eq!(network.get_peer("one.example.com").unwrap().ip, p.ip, "add peer and get peer works");
    assert_eq!(network.dump_peer().pop().unwrap().ip, p.ip, "dump works");
    assert_eq!(network.get_current_size(), 1, "GetCurrentSize works");
}

#[test]
fn add_peer_ignores_known_ids() {
    let mut network = Network::default();
    network.add_peer(peer("a", "1"));
    network.add_peer(peer("a", "2"));
    network.add_peer(peer("b", "3"));
    assert_eq!(network.get_current_size(), 2);
    assert_eq!(network.get_peer("a").unwrap().ip, "1");
    assert!(network.get_peer("c").is_none());
    network.replace_peer_ledger(vec![peer("z", "9")]);
    assert_eq!(network.get_current_size(), 1);
    assert_eq!(network.get_peer("z").unwrap().ip, "9");
}

#[test]
fn get_stake_route_works() {
    let mut config = init_network(Mode::Auditor);
    let default_stake_id = prepare_default_stake(&config);
    let stake = config.serve_stake(5);
    assert_eq!(stake.block_id, 5);
    assert_eq!(stake.stake, default_stake_id);
}

#[test]
fn victim_get_stake_route_works() {
    let mut config = init_network(Mode::Attacker(true));
    let default_stake_id = prepare_default_stake(&config);

    let stake = config.serve_stake(5);
    let empty_stake: Vec<String> = Vec::default();
    assert_eq!(stake.block_id, 5);
    assert_eq!(stake.stake, empty_stake);

    let mut config = init_network(Mode::Attacker(false));
    let stake = config.serve_stake(5);
    assert_eq!(stake.block_id, 5);
    assert_eq!(stake.stake, default_stake_id);
}

#[test]
fn attacker_get_stake_route_works() {
    let mut config = init_network(Mode::Attacker(false));
    let default_stake_id = prepare_default_stake(&config);

    let stake = config.serve_stake(5);
    let empty_stake: Vec<String> = Vec::default();
    assert_eq!(stake.block_id, 5);
    assert_eq!(stake.stake, empty_stake);

    let mut config = init_network(Mode::Attacker(true));
    let stake = config.serve_stake(5);
    assert_eq!(stake.block_id, 5);
    assert_eq!(stake.stake, default_stake_id);
}

#[test]
fn victim_withholds_until_toggled() {
    let mut config = init_network_with_assets(Mode::Victim(true));
    let default_stake_id = prepare_default_stake(&config);
    for id in [1usize, 4, 99] {
        let stake: Stake = config.serve_stake(id);
        assert_eq!(stake.block_id, id);
        assert!(stake.stake.is_empty());
    }
    assert!(config.asset_ledger.stake.is_empty());
    config.toggle_attack();
    assert_eq!(config.mode.get_mode(), Mode::Victim(false));
    assert_eq!(config.serve_stake(4).stake, default_stake_id);
}

#[test]
fn toggle_restores_previously_set_stake() {
    let mut config = init_network_with_assets(Mode::Attacker(false));
    let mine = prepare_default_stake(&config);
    let declared = vec![mine[1].clone()];
    config.asset_ledger.set_stake(8, "test.bastsense.net", &declared);
    assert!(config.serve_stake(8).stake.is_empty());
    config.toggle_attack();
    assert_eq!(config.serve_stake(8).stake, declared);
}

#[test]
fn routes_enroll_dump_and_enroll_work() {
    let mut config = Config::new("test.batsense.net", "localhost:7003", "localhost:7000", 3, Mode::Auditor);
    let p = peer("testing", "yolo");
    assert!(config.enroll_peer(p.clone()));

    let mut dump = config.network.dump_peer();
    assert_eq!(dump.pop().unwrap().ip, p.ip, "peer dump works");

    let assets = config.asset_ledger.dump();
    let length = assets.len();
    let assets_per_peer = length / config.init_network_size;
    let mut asset_ledger_per_peer_state = 0;
    for i in assets.iter() {
        if i.get_owner().is_some() {
            assert_eq!(i.get_owner().as_ref().unwrap(), "testing", "asset ownder rightly assigned");
            asset_ledger_per_peer_state += 1;
        }
    }
    assert_eq!(
        assets_per_peer, asset_ledger_per_peer_state,
        "assets per peer satisfied, no over allocation, no under allocation"
    );
}

#[test]
fn enrolment_closes_when_network_is_full() {
    let mut config = Config::new("auditor", "a:1", "a:1", 2, Mode::Auditor);
    assert!(config.enroll_peer(peer("alpha", "1")));
    assert!(config.enroll_peer(peer("beta", "2")));
    assert!(!config.enroll_peer(peer("gamma", "3")));
    assert_eq!(config.network.get_current_size(), 2);
    assert_eq!(config.asset_ledger.get_peer_assets("alpha").len(), 7);
    assert_eq!(config.asset_ledger.get_peer_assets("beta").len(), 7);
    assert_eq!(config.asset_ledger.get_peer_assets("gamma").len(), 0);
}

#[test]
fn set_attack_works() {
    let mut config = init_network(Mode::Attacker(false));
    config.toggle_attack();
    assert_eq!(config.mode.get_mode(), Mode::Attacker(true));
}

#[test]
fn set_attack_works_attacker_true() {
    let mut config = init_network(Mode::Attacker(true));
    config.toggle_attack();
    assert_eq!(config.mode.get_mode(), Mode::Attacker(false));
}

#[test]
fn set_attack_works_victim_true() {
    let mut config = init_network(Mode::Victim(true));
    config.toggle_attack();
    assert_eq!(config.mode.get_mode(), Mode::Victim(false));
}

#[test]
fn set_attack_works_victim_false() {
    let mut config = init_network(Mode::Victim(false));
    config.toggle_attack();
    assert_eq!(config.mode.get_mode(), Mode::Victim(true));
}

#[test]
fn toggle_leaves_other_modes() {
    assert_eq!(Mode::Auditor.toggled(), Mode::Auditor);
    assert_eq!(Mode::Normal.toggled(), Mode::Normal);
}

#[test]
fn mode_names() {
    assert_eq!(Mode::from_name("auditor"), Some(Mode::Auditor));
    assert_eq!(Mode::from_name("attacker"), Some(Mode::Attacker(false)));
    assert_eq!(Mode::from_name("victim"), Some(Mode::Victim(false)));
    assert_eq!(Mode::from_name("normal"), Some(Mode::Normal));
    assert_eq!(Mode::from_name("Normal"), None);
}

#[test]
fn get_next_block_id_works() {
    let config = init_network(Mode::Normal);
    assert_eq!(config.get_next_block_id(), 4)
}

#[test]
fn check_ownership_follows_the_ledger() {
    let config = init_network_with_assets(Mode::Normal);
    let mine = prepare_default_stake(&config);
    assert!(config.check_ownership("test.bastsense.net", &mine[0]));
    assert!(!config.check_ownership("someone", &mine[0]));
    assert!(!config.check_ownership("test.bastsense.net", "unknown asset"));
}

#[test]
fn consensus_elects_from_authenticated_stakes() {
    let mut config = Config::new("auditor", "a:1", "a:1", 3, Mode::Auditor);
    config.enroll_peer(peer("victim.batsense.net", "v:1"));
    config.enroll_peer(peer("attacker.batsense.net", "t:1"));
    let v: Vec<String> = config.asset_ledger.get_peer_assets("victim.batsense.net").iter().map(|a| a.get_hash().to_string()).collect();
    let t: Vec<String> = config.asset_ledger.get_peer_assets("attacker.batsense.net").iter().map(|a| a.get_hash().to_string()).collect();
    let stakes = vec![
        ("victim.batsense.net".to_string(), Stake { block_id: 4, stake: v.clone() }),
        ("attacker.batsense.net".to_string(), Stake { block_id: 4, stake: t.clone() }),
    ];
    let validator = config.from_stake_to_validator(&stakes).unwrap();
    assert_eq!(validator.id, "victim.batsense.net");
    assert_eq!(validator.ip, "v:1");

    // the attacker withholds; the victim claims the attacker's assets too
    let stakes = vec![
        ("victim.batsense.net".to_string(), Stake { block_id: 4, stake: t.clone() }),
        ("attacker.batsense.net".to_string(), Stake { block_id: 4, stake: vec![] }),
    ];
    assert!(matches!(config.from_stake_to_validator(&stakes), Err(PeerError::NoValidator)));

    let stakes = vec![("attacker.batsense.net".to_string(), Stake { block_id: 4, stake: t })];
    assert_eq!(config.from_stake_to_validator(&stakes).unwrap().id, "attacker.batsense.net");

    let mut other = Config::new("auditor", "a:1", "a:1", 3, Mode::Auditor);
    other.asset_ledger = config.asset_ledger.clone();
    let stakes = vec![("victim.batsense.net".to_string(), Stake { block_id: 4, stake: v })];
    assert!(matches!(other.from_stake_to_validator(&stakes), Err(PeerError::UnknownValidator)));
}

fn sale_block(config: &Config, seller: &str, buyer: &str, asset: &str) -> damn_vuln_blockchain::block::Block {
    let payload = ValidateTx {
        tx: Tx { asset_id: asset.to_string(), buyer_peer_id: buyer.to_string() },
        seller_peer_id: seller.to_string(),
    };
    config.make_block(&payload).unwrap()
}

#[test]
fn apply_block_moves_asset_and_marks_coinage() {
    let mut config = Config::new("v", "a:1", "a:1", 3, Mode::Auditor);
    config.enroll_peer(peer("s", "1"));
    config.enroll_peer(peer("b", "2"));
    config.enroll_peer(peer("v", "3"));
    let sold = config.asset_ledger.get_peer_assets("s")[0].get_hash().to_string();
    let staked = config.asset_ledger.get_peer_assets("v")[1].get_hash().to_string();
    let block = sale_block(&config, "s", "b", &sold);
    assert!(config.accepts_block(&block));
    let stake = Stake { block_id: 4, stake: vec![staked.clone()] };
    assert_eq!(config.apply_block(&block, &stake), Ok(4));
    let moved = config.asset_ledger.get_asset_info(&sold).unwrap();
    assert_eq!(moved.get_owner(), &Some("b".to_string()));
    assert_eq!(moved.get_last_transaction(), 4);
    assert_eq!(config.asset_ledger.get_asset_info(&staked).unwrap().get_last_transaction(), 4);
    assert_eq!(config.chain.len(), 2);
    assert_eq!(config.get_next_block_id(), 5);
    assert!(!config.accepts_block(&block));
}

#[test]
fn armed_victim_only_accepts_attacker_blocks() {
    let mut config = Config::new("victim.batsense.net", "a:1", "a:1", 3, Mode::Auditor);
    config.enroll_peer(peer("attacker.batsense.net", "1"));
    config.enroll_peer(peer("normal", "2"));
    config.mode.set_mode(Mode::Victim(true));
    let a = config.asset_ledger.get_peer_assets("attacker.batsense.net")[0].get_hash().to_string();
    let n = config.asset_ledger.get_peer_assets("normal")[0].get_hash().to_string();
    assert!(config.accepts_block(&sale_block(&config, "attacker.batsense.net", "victim.batsense.net", &a)));
    assert!(!config.accepts_block(&sale_block(&config, "attacker.batsense.net", "normal", &a)));
    assert!(!config.accepts_block(&sale_block(&config, "normal", "victim.batsense.net", &n)));
    config.mode.set_mode(Mode::Normal);
    assert!(config.accepts_block(&sale_block(&config, "normal", "victim.batsense.net", &n)));
}

#[test]
fn make_block_refuses_empty_fields() {
    let config = init_network(Mode::Normal);
    let payload = ValidateTx {
        tx: Tx { asset_id: String::new(), buyer_peer_id: "b".into() },
        seller_peer_id: "s".into(),
    };
    assert!(config.make_block(&payload).is_none());
    let payload = ValidateTx {
        tx: Tx { asset_id: "h".into(), buyer_peer_id: "b".into() },
        seller_peer_id: "s".into(),
    };
    let block = config.make_block(&payload).unwrap();
    assert_eq!(block.get_prev().unwrap(), config.chain.get_last_block().get_hash());
    assert_eq!(block.get_validator().unwrap(), "test.bastsense.net");
    assert_eq!(block.hash(), block.get_hash());
}

#[test]
fn fork_copies_legit_state_for_attackers_only() {
    let mut config = init_network_with_assets(Mode::Normal);
    assert_eq!(config.fork(), Err(PeerError::NotAttacker));
    assert!(config.status().tampered_chain.is_none());
    config.mode.set_mode(Mode::Attacker(false));
    assert_eq!(config.fork(), Ok(()));
    assert_eq!(config.tampered_assets.dump().len(), 15);
    assert_eq!(
        config.tampered_chain.get_last_block().get_hash(),
        config.chain.get_last_block().get_hash()
    );
    let status = config.status();
    assert_eq!(status.tampered_assets.unwrap().len(), 15);
    assert_eq!(status.chain.len(), 1);
    config.mode.set_mode(Mode::Attacker(true));
    assert_eq!(config.get_asset_ledger().assets.len(), 15);
}

#[test]
fn broadcast_skips_self() {
    let mut config = Config::new("me", "a:1", "a:1", 3, Mode::Auditor);
    config.enroll_peer(peer("x", "1"));
    config.enroll_peer(peer("me", "2"));
    config.enroll_peer(peer("y", "3"));
    let ids: Vec<String> = config.broadcast_targets().iter().map(|p| p.id.clone()).collect();
    assert_eq!(ids, vec!["x".to_string(), "y".to_string()]);
}

#[test]
fn adopt_peers_only_when_larger() {
    let mut config = Config::new("me", "a:1", "a:1", 3, Mode::Normal);
    assert!(config.adopt_peers(vec![peer("x", "1")]));
    assert!(!config.adopt_peers(vec![peer("y", "1")]));
    assert_eq!(config.network.get_peer("x").unwrap().ip, "1");
}

#[test]
fn fork_chain_works_on_tampered_state() {
    let mut config = init_network_with_assets(Mode::Attacker(false));
    config.fork().unwrap();
    config.tampered_assets.change_asset_owner(config.asset_ledger.assets[0].get_hash(), "thief");
    let forked = config.fork_chain();
    assert_eq!(forked.asset_ledger.assets[0].get_owner(), &Some("thief".to_string()));
    assert_ne!(config.asset_ledger.assets[0].get_owner(), &Some("thief".to_string()));
    assert_eq!(forked.chain.get_last_block().get_hash(), config.tampered_chain.get_last_block().get_hash());
    assert_eq!(forked.mode.get_mode(), Mode::Attacker(false));
}

#[test]
fn peer_error_messages() {
    assert_eq!(PeerError::NotAttacker.message(), "Peer is not configured to attack, can't carry out attack");
    assert_eq!(
        PeerError::ChainError(damn_vuln_blockchain::error::ChainError::GenesisBlockAdditionError).message(),
        "Block passed is a genesis block. Can't add second Genesis block"
    );
}

#[test]
fn stake_default_is_empty() {
    let s = Stake::default();
    assert_eq!(s.block_id, 0);
    assert!(s.stake.is_empty());
}
