use damn_vuln_blockchain::asset::{Asset, AssetLedger, Stake};

fn assign_assets(assets: &mut AssetLedger, peer_id: &str, change_assets: usize) {
    let length = assets.assets.len();
    let mut assets_per_peer = change_assets;
    for i in 0..length {
        let asset = assets.assets.get_mut(i).unwrap();
        if assets_per_peer > 0 && asset.get_owner().is_none() {
            asset.set_owner(peer_id);
            assets_per_peer -= 1;
        }
    }
}

#[test]
fn mint_asset_works() {
    let mut asset = Asset::new("Delhi", 100);
    assert_eq!(asset.get_name(), "Delhi");
    assert_eq!(asset.get_owner(), &None);
    assert_eq!(asset.get_value(), 100);

    let new_owner = "Me".to_string();
    asset.set_owner(&new_owner);
    assert_eq!(asset.get_owner(), &Some(new_owner));
    asset.set_last_transaction(1);
    assert_eq!(asset.get_last_transaction(), 1);
}

#[test]
fn asset_ledger_init_network_works() {
    let peer_id = "me";
    let mut asset_ledger = AssetLedger::generate(peer_id);
    let network_size: usize = 3;
    asset_ledger.init_network(network_size, peer_id);

    let dump = asset_ledger.dump();
    let length = dump.len();
    let assets_per_peer = length / network_size;
    let mut asset_ledger_per_peer_state = 0;
    for i in dump.iter() {
        if i.get_owner().is_some() {
            assert_eq!(i.get_owner().as_ref().unwrap(), peer_id, "asset ownder rightly assigned");
            asset_ledger_per_peer_state += 1;
        }
    }
    assert_eq!(
        assets_per_peer, asset_ledger_per_peer_state,
        "assets per peer satisfied, no over allocation, no under allocation"
    );
}

#[test]
fn asset_ledger_actor_works() {
    let peer_id = "Me";
    let asset_ledger = AssetLedger::generate(peer_id);
    let mut ledger = AssetLedger::new(peer_id);
    ledger.replace_ledger(asset_ledger.dump());

    let dump = ledger.dump();
    dump.iter()
        .zip(asset_ledger.assets.iter())
        .for_each(|(a, b)| assert_eq!(a, b, "AssetLedger dump test"));

    let hash = asset_ledger.assets.get(2).unwrap().get_hash();
    assert_eq!(
        hash,
        ledger.get_asset_info(hash).unwrap().get_hash(),
        "AssetLedger GetAssetInfo test"
    );

    ledger.change_asset_owner(hash, peer_id);
    assert_eq!(
        &Some(peer_id.to_string()),
        ledger.get_asset_info(hash).unwrap().get_owner(),
        "AssetLedger ChangeOwner test"
    );

    let mut fork = AssetLedger::generate(peer_id);
    let new_dump = ledger.dump();
    fork.replace_ledger(new_dump.clone());
    let forked_dump = fork.dump();
    forked_dump
        .iter()
        .zip(new_dump.iter())
        .for_each(|(a, b)| assert_eq!(a, b, "AssetLedger replace check"));
}

#[test]
fn choose_validator_works() {
    let peer_id = "me";
    let mut ledger = AssetLedger::generate(peer_id);
    let network_size: usize = 3;

    ledger.init_network(network_size, peer_id);
    assert_eq!(ledger.choose_validator(), Some(peer_id.into()), "ChooseValidator works");

    ledger.init_network(network_size, "you");
    assert_eq!(ledger.choose_validator(), Some("me".into()), "ChooseValidator works");

    ledger.init_network(network_size, "us");
    assert_eq!(ledger.choose_validator(), Some("me".into()), "ChooseValidator works");
}

#[test]
fn get_peer_assets_works() {
    let peer_id = "me";
    let mut ledger = AssetLedger::generate(peer_id);
    let mut assets_for_me = ledger.get_peer_assets("Me");
    let network_size: usize = 3;
    assert_eq!(assets_for_me.len(), 0);

    ledger.init_network(network_size, peer_id);
    assets_for_me = ledger.get_peer_assets(peer_id);
    assert_eq!(assets_for_me.len(), 5);
}

#[test]
fn stake_works() {
    let peer_id = "me";
    let mut ledger = AssetLedger::generate(peer_id);
    let assets_for_me = ledger.get_peer_assets("Me");
    let network_size: usize = 3;
    assert_eq!(assets_for_me.len(), 0);

    ledger.init_network(network_size, peer_id);
    let assets_for_me = ledger.get_peer_assets(peer_id);
    let mut stake_id = Vec::new();
    let mut count = 2;
    assets_for_me.iter().for_each(|asset| {
        if count > 0 {
            stake_id.push(asset.get_hash().to_owned());
            count -= 1;
        }
    });

    let mut default_stake_id: Vec<String> = Vec::new();
    assets_for_me.iter().for_each(|asset| {
        default_stake_id.push(asset.get_hash().to_owned());
    });

    let stake = ledger.get_stake(4);
    assert_eq!(stake.block_id, 4);
    assert_eq!(stake.stake, default_stake_id);

    ledger.set_stake(5, peer_id, &stake_id);
    let stake = ledger.get_stake(5);
    assert_eq!(stake.block_id, 5);
    assert_eq!(stake.stake, stake_id);

    ledger.set_stake(5, peer_id, &stake_id);
}

#[test]
fn peers_currently_assigned_works() {
    let peer_id = "me";
    let mut assets = AssetLedger::generate(peer_id);
    let assets_per_peer = 3;
    assert_eq!(assets.peers_currently_assigned(), 0);
    assign_assets(&mut assets, peer_id, assets_per_peer);
    assert_eq!(assets.peers_currently_assigned(), 1);
    assign_assets(&mut assets, "you", assets_per_peer);
    assert_eq!(assets.peers_currently_assigned(), 2);
    assign_assets(&mut assets, "use", assets_per_peer);
    assert_eq!(assets.peers_currently_assigned(), 3);
}

#[test]
fn default_stake_works() {
    let peer_id = "me";
    let mut assets = AssetLedger::generate(peer_id);
    let assets_per_peer = 3;
    assign_assets(&mut assets, peer_id, assets_per_peer);
    let assets_for_me = assets.get_peer_assets(peer_id);
    let mut stake = Vec::new();
    assets_for_me.iter().for_each(|asset| {
        if asset.get_owner().is_some() {
            stake.push(asset.get_hash().to_owned());
        }
    });
    assert_eq!(stake, assets.default_stake())
}

#[test]
fn generate_mints_fifteen_unowned_assets() {
    let ledger = AssetLedger::generate("auditor");
    assert_eq!(ledger.assets.len(), 15);
    assert_eq!(ledger.assets[0].get_name(), "les Escaldes");
    assert_eq!(ledger.assets[14].get_name(), "Abu Dhabi");
    for a in ledger.assets.iter() {
        assert_eq!(a.get_value(), 100);
        assert!(a.get_owner().is_none());
        assert_eq!(a.get_last_transaction(), 0);
        assert_eq!(a.get_hash().len(), 64);
        assert!(a.get_hash().chars().all(|c| c.is_ascii_digit() || ('A'..='F').contains(&c)));
    }
    assert!(ledger.stake.is_empty());
    assert_eq!(ledger.peer_id, "auditor");
}

#[test]
fn init_network_scenario_two_peers() {
    let mut ledger = AssetLedger::generate("auditor");
    ledger.init_network(3, "me");
    let mine: Vec<String> = ledger.get_peer_assets("me").iter().map(|a| a.get_hash().to_string()).collect();
    assert_eq!(mine.len(), 5);
    assert!(ledger.get_peer_assets("me").iter().all(|a| a.get_last_transaction() == 1));

    ledger.init_network(3, "you");
    assert_eq!(ledger.get_peer_assets("you").len(), 5);
    assert!(ledger.get_peer_assets("you").iter().all(|a| a.get_last_transaction() == 2));
    let still_mine: Vec<String> =
        ledger.get_peer_assets("me").iter().map(|a| a.get_hash().to_string()).collect();
    assert_eq!(still_mine, mine);
    assert_eq!(ledger.peers_currently_assigned(), 2);
    // "me" holds 5 assets of coin-age 1 against the latest transaction 2
    assert_eq!(ledger.choose_validator(), Some("me".to_string()));
}

#[test]
fn init_network_never_reassigns_owned_assets() {
    let mut ledger = AssetLedger::generate("auditor");
    for a in ledger.assets.iter_mut() {
        a.set_owner("early");
    }
    ledger.init_network(3, "late");
    assert_eq!(ledger.get_peer_assets("late").len(), 0);
    assert_eq!(ledger.get_peer_assets("early").len(), 15);
}

#[test]
fn choose_validator_none_without_owners() {
    let ledger = AssetLedger::generate("me");
    assert_eq!(ledger.choose_validator(), None);
    let empty = AssetLedger::new("me");
    assert_eq!(empty.choose_validator(), None);
}

#[test]
fn choose_validator_single_owner() {
    let mut ledger = AssetLedger::generate("me");
    ledger.assets[3].set_owner("solo");
    ledger.assets[3].set_last_transaction(9);
    ledger.assets[7].set_owner("solo");
    assert_eq!(ledger.choose_validator(), Some("solo".to_string()));
}

#[test]
fn choose_validator_tie_goes_to_greatest_id() {
    let mut ledger = AssetLedger::new("me");
    let mut a = Asset::new("a", 1);
    a.set_owner("alice");
    a.set_last_transaction(1);
    let mut b = Asset::new("b", 1);
    b.set_owner("bob");
    b.set_last_transaction(1);
    let mut c = Asset::new("c", 1);
    c.set_owner("carol");
    c.set_last_transaction(3);
    ledger.assets = vec![a, b, c];
    // alice and bob both have coin-age 2, carol 0
    assert_eq!(ledger.choose_validator(), Some("bob".to_string()));
}

#[test]
fn choose_validator_sums_coinage_per_owner() {
    let mut ledger = AssetLedger::new("me");
    let mut assets = Vec::new();
    for (owner, tx) in [("x", 5usize), ("y", 2), ("x", 5), ("z", 10), ("y", 9)] {
        let mut a = Asset::new(owner, 1);
        a.set_owner(owner);
        a.set_last_transaction(tx);
        assets.push(a);
    }
    ledger.assets = assets;
    // latest 10: x = 5 + 5 = 10, y = 8 + 1 = 9, z = 0
    assert_eq!(ledger.choose_validator(), Some("x".to_string()));
}

#[test]
fn get_stake_twice_is_the_same() {
    let mut ledger = AssetLedger::generate("me");
    ledger.init_network(3, "me");
    let first = ledger.get_stake(7);
    let stakes_after_first = ledger.stake.len();
    let second = ledger.get_stake(7);
    assert_eq!(first.block_id, second.block_id);
    assert_eq!(first.stake, second.stake);
    assert_eq!(ledger.stake.len(), stakes_after_first);
    assert_eq!(first.stake.len(), 5);
}

#[test]
fn set_stake_drops_unowned_hashes() {
    let mut ledger = AssetLedger::generate("me");
    ledger.init_network(3, "me");
    let mine = ledger.get_peer_assets("me");
    let not_mine = ledger.assets[14].get_hash().to_string();
    let declared = vec![mine[0].get_hash().to_string(), not_mine, "nope".to_string(), mine[1].get_hash().to_string()];
    let dropped = ledger.set_stake(9, "me", &declared);
    assert_eq!(dropped, 2);
    let stake: Stake = ledger.get_stake(9);
    assert_eq!(stake.stake, vec![mine[0].get_hash().to_string(), mine[1].get_hash().to_string()]);
}

#[test]
fn change_owner_of_unknown_asset_changes_nothing() {
    let mut ledger = AssetLedger::generate("me");
    let before = ledger.dump();
    ledger.change_asset_owner("no such hash", "you");
    ledger.set_last_transaction("no such hash", 4);
    assert!(ledger.dump() == before);
    assert!(ledger.get_asset_info("no such hash").is_none());
}

#[test]
fn asset_hashes_differ_by_salt() {
    let a = Asset::new("Delhi", 100);
    let b = Asset::new("Delhi", 100);
    assert_ne!(a.get_hash(), b.get_hash());
}

#[test]
fn asset_to_string_describes_it() {
    let mut asset = Asset::new("Delhi", 250);
    assert_eq!(
        asset.to_string(),
        format!("Hash:{}\nName: Delhi\nValue: 250\nOwner: Fresh out of mint", asset.get_hash())
    );
    asset.set_owner("me");
    assert!(asset.to_string().ends_with("\nValue: 250\nOwner: me"));
}

#[test]
fn ledger_from_parts_round_trip() {
    let a = Asset::from_parts("n".into(), 3, "H".into(), Some("o".into()), 7);
    assert_eq!(a.get_name(), "n");
    assert_eq!(a.get_value(), 3);
    assert_eq!(a.get_hash(), "H");
    assert_eq!(a.get_owner(), &Some("o".to_string()));
    assert_eq!(a.get_last_transaction(), 7);
    let mut ledger = AssetLedger::new("me");
    ledger.replace_ledger(vec![a.clone()]);
    assert!(ledger.get_asset_info("H").unwrap() == a);
}
