use doritrack::tether::apply::{
    apply_next, ApplyRefusal, ApplyReport, ApplyStep, ApplyVerdict,
};
use doritrack::tether::guard::{
    guard_next, guard_start, GuardOutcome, GuardStep, GuardVerdict, InterfaceSnapshot,
};
use doritrack::tether::journal::{
    decode_policy, encode_policy, is_policy_value, policy_value_name, registry_value_source,
    PolicyError,
};
use doritrack::tether::linux::{
    inspect_routes, is_tether_device, tether_listeners, trusted_directory, trusted_file,
    unambiguous_interface, Inspection, InterfaceEntry, MAX_IP_OUTPUT,
};
use doritrack::tether::netlink::{
    absent_routes, creation_outcome, default_routes, deletion_outcome, dump_query, encode_message,
    encode_route, nlmsg_align, parse_route, peer_query, push_attribute, read_replies,
    reply_interface, rta_align, rta_length, Attribute, CapturedRoute,
    ChangeOutcome, Replies, NLMSG_DONE, NLMSG_ERROR, NLMSG_HDRLEN, NLM_F_MULTI, RTA_DST,
    RTA_GATEWAY, RTA_OIF, RTA_PRIORITY, RTA_TABLE, RTM_HDRLEN, RT_TABLE_MAIN,
};
use doritrack::tether::policy::{
    captured_gateway_is_available, creation_succeeded, error_with_rollback, errors_to_result,
    is_missing, may_delete, missing_original_indices, prepare_interface_row_for_set,
    rollback_order, rollback_suffix, route_key, same_multiset, should_restore_owned_flag, win32_error, win32_kind, FaultKind,
    InterfaceRow, PersistedRoute, RouteKey, FAMILY_IPV4, FAMILY_IPV6,
};
use doritrack::tether::recover::{
    recover_orphaned_policy, Orphan, Recovery, RecoveryOutcome, RecoveryReport, RecoveryStep,
    RecoveryVerdict,
};
use doritrack::tether::restore::{
    Restoration, RestoreRefusal, RestoreReport, RestoreStep, RestoreVerdict,
};
use doritrack::tether::windows::{
    guid_bytes, tether_adapters, tether_snapshot, AdapterEntry, OnLink,
};
use doritrack::tether::identity::{
    adapter_is_tether, carrier_says_up, find_adapter, flags_say_up, presence_by_error, read_index,
    Presence,
};
use doritrack::tether::{
    binding_prefix, interface_identity_matches, is_tether_adapter,
    is_tether_capable_driver, is_tether_driver, same_adapter_instance, same_prefix,
    valid_command_interface_name, valid_tether_prefix, AdapterIdentity, Address,
    InterfaceIdentity, ProcessOwner, TetherBinding, TetherPrefix, TetherSnapshot,
};

fn v4(a: u8, b: u8, c: u8, d: u8) -> Address {
    Address::V4(u32::from_be_bytes([a, b, c, d]))
}

fn v6(high: u64, low: u64) -> Address {
    Address::V6((u128::from(high) << 64) | u128::from(low))
}

#[test]
fn recognizes_only_the_rndis_host_driver() {
    assert!(is_tether_capable_driver(b"rndis_host"));
    for driver in [
        "cdc_ncm",
        "cdc_ether",
        "cdc_subset",
        "cdc_mbim",
        "ipheth",
        "r8169",
        "e1000e",
        "iwlwifi",
        "veth",
        "bridge",
        "",
    ] {
        assert!(!is_tether_capable_driver(driver.as_bytes()));
    }
}

#[test]
fn accepts_only_safe_interface_names_for_iproute2() {
    for name in ["usb0", "enp0s20f0u1", "rndis_0", "usb.1"] {
        assert!(valid_command_interface_name(name.as_bytes()));
    }
    for name in ["", "--help", "usb 0", "usb/0", "abcdefghijklmnop"] {
        assert!(!valid_command_interface_name(name.as_bytes()));
    }
}

#[test]
fn accepts_only_contiguous_local_prefixes_containing_the_peer() {
    let mask = v4(255, 255, 255, 0);
    let wide = v6(u64::MAX, 0);
    assert!(binding_prefix(v4(192, 168, 42, 10), v4(192, 168, 42, 129), mask));
    assert!(!binding_prefix(v4(192, 168, 42, 10), v4(192, 168, 43, 1), mask));
    assert!(!binding_prefix(v4(8, 8, 8, 10), v4(8, 8, 8, 11), mask));
    assert!(!binding_prefix(
        v4(192, 168, 42, 10),
        v4(192, 168, 42, 11),
        v4(255, 0, 255, 0)
    ));
    let link = 0xfe80_0000_0000_0000;
    assert!(binding_prefix(v6(link, 1), v6(link, 2), wide));
    let global = 0x2001_0db8_0000_0000;
    assert!(!binding_prefix(v6(global, 1), v6(global, 2), wide));
}

fn device(index: u32) -> InterfaceIdentity {
    InterfaceIdentity {
        index,
        name: b"usb0".to_vec(),
        device_path: b"/sys/devices/usb1".to_vec(),
        driver: b"rndis_host".to_vec(),
        hardware_address: "02:00:00:00:00:01".to_owned(),
    }
}

#[test]
fn runtime_binding_requires_the_exact_ingress_interface() {
    let binding = device(7);
    assert!(binding.accepts_ingress_interface(true, Some(7)));
    assert!(!binding.accepts_ingress_interface(true, Some(8)));
    assert!(!binding.accepts_ingress_interface(true, None));
    assert!(binding.accepts_ingress_interface(false, None));
    let windows = TetherBinding {
        interface_index: 7,
        adapter: sample_adapter(),
        validate_runtime: true,
    };
    assert!(windows.accepts_ingress_interface(Some(7)));
    assert!(!windows.accepts_ingress_interface(Some(8)));
    assert!(!windows.accepts_ingress_interface(None));
    assert_eq!(windows.interface_index(), 7);
}

#[test]
fn devices_are_told_apart_by_every_mark() {
    let plugged = device(7);
    assert!(plugged.is_same(&device(7)));
    assert!(!plugged.is_same(&device(8)));
    let mut other = device(7);
    other.hardware_address = "02:00:00:00:00:02".to_owned();
    assert!(!plugged.is_same(&other));
}

#[test]
fn tether_policy_recognizes_common_android_tether_descriptions() {
    assert!(is_tether_adapter(
        "remote ndis based internet sharing device ethernet 4"
    ));
    assert!(is_tether_adapter("android usb tether ncm0"));
}

#[test]
fn tether_policy_does_not_select_normal_network_adapters() {
    assert!(!is_tether_adapter(
        "realtek pcie gbe family controller ethernet"
    ));
    assert!(!is_tether_adapter("intel wi-fi 6 ax201"));
    assert!(!is_tether_adapter(
        "generic usb ncm gigabit ethernet adapter"
    ));
    assert!(!is_tether_adapter("usb rndis ethernet adapter"));
    assert!(!is_tether_adapter("usb ncm mobile broadband adapter"));
    assert!(!is_tether_adapter("linux ethernet gadget"));
}

#[test]
fn windows_recognizes_common_android_tether_descriptions() {
    assert!(is_tether_adapter(
        "remote ndis based internet sharing device ethernet 4"
    ));
    assert!(is_tether_adapter("android usb tether ncm0"));
}

#[test]
fn windows_does_not_select_normal_network_adapters() {
    assert!(!is_tether_adapter(
        "realtek pcie gbe family controller ethernet"
    ));
    assert!(!is_tether_adapter("intel wi-fi 6 ax201"));
}

#[test]
fn labels_are_compared_in_lower_case() {
    assert!(adapter_is_tether(
        "Remote NDIS based Internet Sharing Device",
        "Ethernet 4"
    ));
    assert!(!adapter_is_tether("Intel Wi-Fi 6 AX201", "Wi-Fi"));
}

#[test]
fn tether_policy_prepares_ipv4_interface_rows_for_windows_update() {
    let mut row = InterfaceRow {
        family: FAMILY_IPV4,
        disable_default_routes: false,
        site_prefix_length: 24,
    };
    prepare_interface_row_for_set(&mut row, true);
    assert!(row.disable_default_routes);
    assert_eq!(row.site_prefix_length, 0);
}

#[test]
fn tether_policy_preserves_ipv6_site_prefix_when_updating_interface() {
    let mut row = InterfaceRow {
        family: FAMILY_IPV6,
        disable_default_routes: false,
        site_prefix_length: 64,
    };
    prepare_interface_row_for_set(&mut row, false);
    assert!(!row.disable_default_routes);
    assert_eq!(row.site_prefix_length, 64);
}

#[test]
fn windows_prepares_ipv4_interface_rows_for_windows_update() {
    let mut row = InterfaceRow {
        family: FAMILY_IPV4,
        disable_default_routes: false,
        site_prefix_length: 24,
    };
    prepare_interface_row_for_set(&mut row, true);
    assert!(row.disable_default_routes);
    assert_eq!(row.site_prefix_length, 0);
}

#[test]
fn windows_preserves_ipv6_site_prefix_when_updating_interface() {
    let mut row = InterfaceRow {
        family: FAMILY_IPV6,
        disable_default_routes: false,
        site_prefix_length: 64,
    };
    prepare_interface_row_for_set(&mut row, false);
    assert!(!row.disable_default_routes);
    assert_eq!(row.site_prefix_length, 64);
}

#[test]
fn prefix_matching_handles_ipv4_ipv6_and_family_mismatches() {
    let local = 0xfd00_0000_0000_0000;
    assert!(same_prefix(v4(192, 168, 42, 129), v4(192, 168, 42, 1), 24));
    assert!(!same_prefix(v4(192, 168, 43, 2), v4(192, 168, 42, 1), 24));
    assert!(same_prefix(v6(local, 2), v6(local, 1), 64));
    assert!(!same_prefix(v4(127, 0, 0, 1), v6(0, 1), 128));
    assert!(!valid_tether_prefix(v4(192, 168, 42, 1), 0));
    assert!(!valid_tether_prefix(v4(192, 168, 42, 1), 8));
    assert!(!valid_tether_prefix(v4(8, 8, 8, 8), 24));
    assert!(!valid_tether_prefix(v4(192, 168, 42, 1), 32));
    assert!(valid_tether_prefix(v6(local, 1), 64));
    assert!(!valid_tether_prefix(v6(local, 1), 4));
    assert!(!valid_tether_prefix(
        v6(0x2001_4860_4860_0000, 0x8888),
        64
    ));
}

#[test]
fn route_restore_plan_never_replaces_newer_state() {
    assert_eq!(missing_original_indices(&[1], &[1, 2]), Some(vec![1]));
    assert_eq!(missing_original_indices(&[1, 3], &[1, 2]), None);
    assert_eq!(missing_original_indices(&[1, 2], &[1, 1, 2]), Some(vec![1]));
    assert_eq!(missing_original_indices(&[1, 1], &[1]), None);
    assert!(same_multiset(&[1, 2, 1], &[1, 1, 2]));
    assert!(!same_multiset(&[1], &[1, 2]));
    assert!(!same_multiset(&[1, 3], &[1, 2]));
}

#[test]
fn missing_captured_gateway_blocks_journal_completion() {
    let captured = v4(192, 168, 42, 129);
    assert!(captured_gateway_is_available(captured, &vec![captured]));
    assert!(!captured_gateway_is_available(
        captured,
        &vec![v4(192, 168, 42, 1)]
    ));
    assert!(captured_gateway_is_available(v4(0, 0, 0, 0), &vec![]));
}

#[test]
fn rollback_retains_failed_entries_for_a_later_retry() {
    let mut entries = vec![0, 1, 2, 3];
    let mut errors: Vec<String> = Vec::new();
    let mut order = Vec::new();
    let mut restored = vec![false; entries.len()];
    for index in rollback_order(entries.len(), 1) {
        order.push(entries[index]);
        if entries[index] == 2 {
            errors.push("synthetic restore failure".to_owned());
        } else {
            restored[index] = true;
        }
    }
    rollback_suffix(&mut entries, 1, &restored);
    assert_eq!(order, vec![3, 2, 1]);
    assert_eq!(entries, vec![0, 2]);
    assert_eq!(errors.len(), 1);
    assert_eq!(
        errors_to_result("restore", &errors).unwrap(),
        "restore: synthetic restore failure"
    );
    assert_eq!(errors_to_result("restore", &vec![]), None);
    assert!(error_with_rollback("protect", "first", &errors).contains("synthetic restore failure"));
}

#[test]
fn flag_restore_only_undoes_the_value_owned_by_the_policy() {
    assert!(should_restore_owned_flag(true, false));
    assert!(!should_restore_owned_flag(false, false));
    assert!(!should_restore_owned_flag(true, true));
    assert!(!should_restore_owned_flag(false, true));
}

#[test]
fn peer_classification_rejects_non_tether_and_ambiguous_subnets() {
    let first = TetherPrefix {
        interface_index: 7,
        address: v4(192, 168, 42, 1),
        prefix_length: 24,
    };
    let second = TetherPrefix {
        interface_index: 9,
        address: v4(192, 168, 42, 2),
        prefix_length: 24,
    };
    let snapshot = TetherSnapshot {
        prefixes: vec![first],
    };
    assert_eq!(snapshot.classify_peer(v4(192, 168, 42, 129)), Some(7));
    assert_eq!(snapshot.classify_peer(v4(10, 0, 0, 2)), None);
    let ambiguous = TetherSnapshot {
        prefixes: vec![first, second],
    };
    assert_eq!(ambiguous.classify_peer(v4(192, 168, 42, 129)), None);
}

#[test]
fn durable_policy_round_trips_and_rejects_corruption() {
    let policy = br#"{"owner":{"pid":42,"creation_time":123,"image_name":"host.exe"},"family":2}"#;
    let encoded = encode_policy(policy).unwrap();
    assert_eq!(decode_policy(&encoded).unwrap(), policy);
    for index in 0..encoded.len() {
        let mut corrupted = encoded.clone();
        corrupted[index] ^= 1;
        assert!(decode_policy(&corrupted).is_err());
    }
    let mut corrupted = encoded.clone();
    corrupted[12] ^= 1;
    assert_eq!(decode_policy(&corrupted), Err(PolicyError::Checksum));
    let mut newer = encoded.clone();
    newer[4] = 2;
    assert_eq!(decode_policy(&newer), Err(PolicyError::UnsupportedVersion(2)));
    assert_eq!(decode_policy(&encoded[..10]), Err(PolicyError::Invalid));
    assert_eq!(
        decode_policy(&encoded[..encoded.len() - 1]),
        Err(PolicyError::Truncated)
    );
    assert!(PolicyError::Checksum.message("test").contains("test"));
}

#[test]
fn journal_values_are_recognized_by_name() {
    let name = policy_value_name(42, 123, 9, FAMILY_IPV4);
    assert!(is_policy_value(&name));
    assert!(!is_policy_value("Unrelated"));
    assert!(registry_value_source(&name).contains(&name));
}

fn sample_adapter() -> AdapterIdentity {
    AdapterIdentity {
        adapter_name: "{adapter-guid}".to_owned(),
        luid: 7,
        network_guid: [3; 16],
        physical_address: vec![1, 2, 3, 4, 5, 6],
        interface_index: 9,
        description: "Remote NDIS".to_owned(),
        friendly_name: "USB tether".to_owned(),
    }
}

fn sample_route() -> PersistedRoute {
    PersistedRoute {
        next_hop: v4(192, 168, 42, 129),
        next_hop_scope_id: 0,
        site_prefix_length: 0,
        valid_lifetime: u32::MAX,
        preferred_lifetime: u32::MAX,
        metric: 5,
        protocol: 3,
        loopback: false,
        autoconfigure_address: false,
        publish: false,
        immortal: true,
        origin: 0,
    }
}

#[test]
fn recovery_requires_the_same_adapter_instance() {
    let expected = sample_adapter();
    let mut current = expected.clone();
    assert!(same_adapter_instance(&expected, &current));
    current.interface_index ^= 1;
    assert!(same_adapter_instance(&expected, &current));
    current.luid ^= 1;
    assert!(!same_adapter_instance(&expected, &current));
    assert_eq!(
        find_adapter(&expected, &vec![current.clone(), sample_adapter()]),
        Ok(Some(1))
    );
    assert_eq!(find_adapter(&expected, &vec![current]), Ok(None));
    assert!(find_adapter(&expected, &vec![sample_adapter(), sample_adapter()]).is_err());
}

#[test]
fn live_binding_requires_the_original_interface_and_adapter() {
    let expected = TetherBinding {
        interface_index: sample_adapter().interface_index,
        adapter: sample_adapter(),
        validate_runtime: true,
    };
    let mut current = expected.clone();
    assert!(expected.matches_current(&current));

    current.interface_index ^= 1;
    current.adapter.interface_index = current.interface_index;
    assert!(!expected.matches_current(&current));

    current = expected.clone();
    current.adapter.luid ^= 1;
    assert!(!expected.matches_current(&current));
}

#[test]
fn privileged_rows_require_the_discovered_interface_luid() {
    let adapter = sample_adapter();
    assert!(interface_identity_matches(
        adapter.interface_index,
        adapter.luid,
        &adapter
    ));
    assert!(!interface_identity_matches(
        adapter.interface_index ^ 1,
        adapter.luid,
        &adapter
    ));
    assert!(!interface_identity_matches(
        adapter.interface_index,
        adapter.luid ^ 1,
        &adapter
    ));
}

#[test]
fn reconstructed_link_local_gateway_uses_the_current_interface_scope() {
    let mut route = sample_route();
    route.next_hop = v6(0xfe80_0000_0000_0000, 1);
    route.next_hop_scope_id = 9;
    let row = route.restored(31, FAMILY_IPV6).unwrap();
    assert_eq!(row.next_hop, route.next_hop);
    assert_eq!(row.next_hop_scope_id, 31);
    assert!(route.restored(31, FAMILY_IPV4).is_err());
    assert_eq!(
        sample_route().restored(31, FAMILY_IPV4).unwrap().next_hop_scope_id,
        0
    );
}

/// An interface that does what it is told.
struct Obedient {
    routes: Vec<PersistedRoute>,
    disabled: bool,
    journaled: bool,
}

fn route_via(last: u8) -> PersistedRoute {
    PersistedRoute {
        next_hop: v4(192, 168, 42, last),
        ..sample_route()
    }
}

fn key_of(route: &PersistedRoute) -> RouteKey {
    route_key(9, FAMILY_IPV4, 0, v4(0, 0, 0, 0), route.next_hop)
}

impl Obedient {
    fn apply(&mut self, captured: &Vec<PersistedRoute>, removals: usize) -> Option<ApplyVerdict> {
        let mut step = ApplyStep::Compare;
        let mut removed = 0;
        loop {
            let report = match step {
                ApplyStep::Compare | ApplyStep::Recheck(_) | ApplyStep::Sweep => {
                    ApplyReport::Routes(self.routes.clone())
                }
                ApplyStep::Look | ApplyStep::Inspect | ApplyStep::Confirm => {
                    ApplyReport::Interface(Some(self.disabled))
                }
                ApplyStep::Disable | ApplyStep::Reassert => {
                    self.disabled = true;
                    ApplyReport::Done
                }
                ApplyStep::Remove(at) => {
                    if removed == removals {
                        return None;
                    }
                    removed += 1;
                    self.routes.retain(|route| *route != captured[at]);
                    ApplyReport::Done
                }
            };
            match apply_next(captured, step, &report) {
                ApplyVerdict::Go(next) => step = next,
                verdict => return Some(verdict),
            }
        }
    }

    fn restore(&mut self, captured: &[PersistedRoute], gateways: Vec<Address>) -> RestoreVerdict {
        let mut restoration = Restoration::new(
            captured.iter().map(key_of).collect(),
            captured.iter().map(|route| route.next_hop).collect(),
            gateways,
            false,
        );
        let mut step = RestoreStep::Look;
        loop {
            let report = match step {
                RestoreStep::Compare | RestoreStep::Verify => {
                    RestoreReport::Keys(self.routes.iter().map(key_of).collect())
                }
                RestoreStep::Create { route, .. } => {
                    self.routes.push(captured[route]);
                    RestoreReport::Done
                }
                RestoreStep::Enable => {
                    self.disabled = false;
                    RestoreReport::Done
                }
                RestoreStep::Forget => {
                    self.journaled = false;
                    RestoreReport::Done
                }
                _ => RestoreReport::Interface(Some(self.disabled)),
            };
            match restoration.next(step, &report) {
                RestoreVerdict::Go(next) => step = next,
                verdict => return verdict,
            }
        }
    }
}

#[test]
fn an_applied_policy_is_taken_back_from_wherever_it_stopped() {
    let captured = vec![route_via(129), route_via(130), route_via(131)];
    let gateways: Vec<Address> = captured.iter().map(|route| route.next_hop).collect();
    for removals in 0..=captured.len() {
        let mut interface = Obedient {
            routes: vec![captured[2], captured[0], captured[1]],
            disabled: false,
            journaled: true,
        };
        let verdict = interface.apply(&captured, removals);
        assert_eq!(interface.routes.len(), captured.len() - removals);
        assert!(interface.disabled);
        if removals == captured.len() {
            assert_eq!(verdict, Some(ApplyVerdict::Finished));
        } else {
            assert_eq!(verdict, None);
        }
        assert_eq!(
            interface.restore(&captured, gateways.clone()),
            RestoreVerdict::Finished
        );
        assert!(same_multiset(&interface.routes, &captured));
        assert!(!interface.disabled && !interface.journaled);
    }
}

#[test]
fn a_changed_interface_is_left_alone() {
    let captured = vec![route_via(129), route_via(130)];
    let refused = |step, report| apply_next(&captured, step, &report);
    assert_eq!(
        refused(ApplyStep::Compare, ApplyReport::Routes(vec![route_via(129)])),
        ApplyVerdict::Refused(ApplyRefusal::ChangedAfterCapture)
    );
    assert_eq!(
        refused(ApplyStep::Recheck(1), ApplyReport::Routes(captured.clone())),
        ApplyVerdict::Refused(ApplyRefusal::ChangedDuring)
    );
    assert_eq!(
        refused(ApplyStep::Look, ApplyReport::Interface(None)),
        ApplyVerdict::Refused(ApplyRefusal::GoneBefore)
    );
    assert_eq!(
        refused(ApplyStep::Inspect, ApplyReport::Interface(None)),
        ApplyVerdict::Refused(ApplyRefusal::GoneProtected)
    );
    assert_eq!(
        refused(ApplyStep::Confirm, ApplyReport::Interface(None)),
        ApplyVerdict::Refused(ApplyRefusal::GoneMeanwhile)
    );
    assert_eq!(
        refused(ApplyStep::Confirm, ApplyReport::Interface(Some(false))),
        ApplyVerdict::Refused(ApplyRefusal::StillEnabled)
    );
    assert_eq!(
        refused(ApplyStep::Sweep, ApplyReport::Routes(captured.clone())),
        ApplyVerdict::Refused(ApplyRefusal::Unjournaled(2))
    );
    assert_eq!(refused(ApplyStep::Remove(0), ApplyReport::Failed), ApplyVerdict::Failed);
    assert_eq!(
        ApplyRefusal::Unjournaled(2).message(9),
        "2 unjournaled default route(s) appeared on protected tether interface 9; refusing to delete them"
    );
}

#[test]
fn restoring_stops_at_a_route_without_its_gateway() {
    let captured = [route_via(129), route_via(130)];
    let mut interface = Obedient {
        routes: vec![],
        disabled: true,
        journaled: true,
    };
    assert_eq!(
        interface.restore(&captured, vec![v4(192, 168, 42, 129)]),
        RestoreVerdict::Refused(RestoreRefusal::GatewayGone(1))
    );
    assert_eq!(interface.routes.len(), 1);
    assert!(interface.disabled && interface.journaled);
    let mut newer = Obedient {
        routes: vec![route_via(7)],
        disabled: true,
        journaled: true,
    };
    assert_eq!(newer.restore(&captured, vec![]), RestoreVerdict::Finished);
    assert_eq!(newer.routes.len(), 1);
    assert_eq!(
        RestoreRefusal::GatewayGone(1).message(9, false, "192.168.42.130"),
        "captured gateway 192.168.42.130 is no longer configured on tether interface 9; retaining the recovery journal"
    );
}

fn snapshot_of(adapter: AdapterIdentity, family: u16) -> InterfaceSnapshot {
    InterfaceSnapshot {
        interface_index: adapter.interface_index,
        adapter,
        family,
        disable_default_routes: false,
        default_routes: vec![sample_route()],
        persisted_name: "journal".to_owned(),
    }
}

#[test]
fn protection_captures_both_families_or_rolls_back() {
    let binding = TetherBinding {
        interface_index: 9,
        adapter: sample_adapter(),
        validate_runtime: true,
    };
    let none = vec![];
    let go = |step| GuardVerdict::Go(step);
    assert_eq!(guard_start(&none, &binding), go(GuardStep::Capture(FAMILY_IPV4)));
    let next = |step, outcome| guard_next(&none, 0, &binding, step, outcome);
    assert_eq!(
        next(GuardStep::Capture(FAMILY_IPV4), GuardOutcome::Done),
        go(GuardStep::Apply(FAMILY_IPV4))
    );
    assert_eq!(
        next(GuardStep::Capture(FAMILY_IPV4), GuardOutcome::Absent),
        go(GuardStep::Capture(FAMILY_IPV6))
    );
    assert_eq!(
        next(GuardStep::Apply(FAMILY_IPV6), GuardOutcome::Done),
        GuardVerdict::Finished
    );
    assert_eq!(
        next(GuardStep::Apply(FAMILY_IPV6), GuardOutcome::Failed),
        GuardVerdict::RollBack
    );

    let held = vec![
        snapshot_of(sample_adapter(), FAMILY_IPV4),
        snapshot_of(sample_adapter(), FAMILY_IPV6),
    ];
    assert_eq!(guard_start(&held, &binding), go(GuardStep::Reassert(0)));
    assert_eq!(
        guard_next(&held, 2, &binding, GuardStep::Reassert(0), GuardOutcome::Done),
        go(GuardStep::Reassert(1))
    );
    assert_eq!(
        guard_next(&held, 2, &binding, GuardStep::Reassert(1), GuardOutcome::Done),
        GuardVerdict::Finished
    );
    assert_eq!(
        guard_next(&held, 2, &binding, GuardStep::Reassert(1), GuardOutcome::Failed),
        GuardVerdict::Failed
    );
    let mut replaced = sample_adapter();
    replaced.luid ^= 1;
    let foreign = vec![snapshot_of(replaced, FAMILY_IPV4)];
    assert_eq!(guard_start(&foreign, &binding), GuardVerdict::Foreign);
}

#[test]
fn a_restoration_names_what_is_missing() {
    let fresh = || {
        Restoration::new(
            vec![key_of(&route_via(129))],
            vec![route_via(129).next_hop],
            vec![route_via(129).next_hop],
            false,
        )
    };
    let mut restoration = fresh();
    let gone = RestoreReport::Interface(None);
    let refused = |refusal| RestoreVerdict::Refused(refusal);
    assert_eq!(
        restoration.next(RestoreStep::Look, &gone),
        refused(RestoreRefusal::NoRow)
    );
    assert_eq!(
        restoration.next(RestoreStep::LookAtFlag, &gone),
        refused(RestoreRefusal::GoneBeforeFlag)
    );
    assert_eq!(
        restoration.next(RestoreStep::RecheckFlag, &gone),
        refused(RestoreRefusal::GoneDuringFlag)
    );
    assert_eq!(
        restoration.next(RestoreStep::ConfirmFlag, &gone),
        refused(RestoreRefusal::GoneAfterFlag)
    );
    assert_eq!(
        restoration.next(RestoreStep::ConfirmFlag, &RestoreReport::Interface(Some(true))),
        refused(RestoreRefusal::FlagKept)
    );
    let mut restoration = fresh();
    assert_eq!(
        restoration.next(RestoreStep::Compare, &RestoreReport::Keys(vec![])),
        RestoreVerdict::Go(RestoreStep::Create {
            position: 0,
            route: 0
        })
    );
    assert_eq!(
        restoration.next(RestoreStep::Verify, &RestoreReport::Keys(vec![])),
        refused(RestoreRefusal::StillAbsent(0))
    );
}

#[test]
fn route_keys_hold_the_octets_in_network_order() {
    let key = route_key(9, FAMILY_IPV4, 0, v4(0, 0, 0, 0), v4(192, 168, 42, 129));
    assert_eq!(key.next_hop[..4], [192, 168, 42, 129]);
    assert_eq!(key.next_hop[4..], [0; 12]);
    let key = route_key(9, FAMILY_IPV6, 0, v6(0, 0), v6(0xfe80_0000_0000_0000, 1));
    assert_eq!(key.next_hop[..2], [0xfe, 0x80]);
    assert_eq!(key.next_hop[15], 1);
    assert_eq!(
        guid_bytes(0x0403_0201, 0x0605, 0x0807, [9, 10, 11, 12, 13, 14, 15, 16]),
        [1, 2, 3, 4, 5, 6, 7, 8, 9, 10, 11, 12, 13, 14, 15, 16]
    );
}

fn adapter(index: u32, description: &str, up: bool, last: u8) -> AdapterEntry {
    AdapterEntry {
        interface_index: index,
        description: description.to_owned(),
        friendly_name: "Ethernet".to_owned(),
        up,
        addresses: vec![
            OnLink {
                address: v4(192, 168, 42, last),
                prefix_length: 24,
            },
            OnLink {
                address: v4(8, 8, 8, last),
                prefix_length: 24,
            },
        ],
    }
}

#[test]
fn only_tethers_that_are_up_lead_to_the_phone() {
    let entries = vec![
        adapter(3, "Realtek PCIe GbE Family Controller", true, 2),
        adapter(7, "Remote NDIS based Internet Sharing Device", true, 3),
        adapter(7, "Remote NDIS based Internet Sharing Device", true, 4),
        adapter(8, "Remote NDIS based Internet Sharing Device", false, 5),
        adapter(0, "Remote NDIS based Internet Sharing Device", true, 6),
    ];
    assert_eq!(tether_adapters(&entries), [1]);
    let snapshot = tether_snapshot(&entries);
    assert_eq!(snapshot.prefixes.len(), 1);
    assert_eq!(snapshot.prefixes[0].address, v4(192, 168, 42, 3));
    let peer = v4(192, 168, 42, 129);
    assert_eq!(snapshot.confirmed_interface(peer, 7), Some(7));
    assert_eq!(snapshot.confirmed_interface(peer, 3), None);
    assert_eq!(snapshot.confirmed_interface(v4(10, 0, 0, 1), 7), None);
}

#[test]
fn deletion_goes_on_while_nothing_changed() {
    let mut other = sample_route();
    other.metric = 6;
    assert!(may_delete(&[sample_route(), other], &[other, sample_route()], 0));
    assert!(may_delete(&[other], &[sample_route(), other], 1));
    assert!(!may_delete(&[sample_route()], &[sample_route(), other], 1));
    assert!(!may_delete(&[sample_route(), sample_route()], &[sample_route(), other], 0));
}

#[test]
fn windows_results_are_told_apart() {
    assert!(is_missing(2) && is_missing(1168) && !is_missing(5));
    assert!(creation_succeeded(0) && creation_succeeded(183) && creation_succeeded(5010));
    assert!(!creation_succeeded(5));
    assert_eq!(win32_kind(5), FaultKind::PermissionDenied);
    assert_eq!(win32_kind(1168), FaultKind::NotFound);
    assert_eq!(win32_kind(87), FaultKind::Other);
    assert_eq!(
        win32_error("SetIpInterfaceEntry", 5),
        "SetIpInterfaceEntry failed with Windows error 5"
    );
    assert_eq!(presence_by_error(87), Presence::Absent);
    let owner = ProcessOwner {
        pid: 42,
        creation_time: 123,
        image_name: "host.exe".to_owned(),
    };
    assert!(owner.is_process(123, Some(&"HOST.exe".to_owned())));
    assert!(!owner.is_process(124, Some(&"host.exe".to_owned())));
}

#[test]
fn only_recovered_policies_without_an_owner_are_removed() {
    let orphan = |owner_runs, recovers| Orphan {
        owner_runs,
        recovers,
        removes: true,
    };
    let lost = orphan(Some(false), true);
    let owned = orphan(Some(true), true);
    let absent = orphan(Some(false), false);
    assert_eq!(
        recover_orphaned_policy(&vec![]),
        (Ok(RecoveryOutcome::NothingToDo), vec![])
    );
    assert_eq!(
        recover_orphaned_policy(&vec![lost, lost]),
        (
            Ok(RecoveryOutcome::Restored { snapshots: 2 }),
            vec![false, false]
        )
    );
    assert_eq!(
        recover_orphaned_policy(&vec![owned, lost]),
        (Ok(RecoveryOutcome::OwnerStillRunning), vec![true, false])
    );
    assert_eq!(
        recover_orphaned_policy(&vec![lost, absent, lost]),
        (Err(1), vec![false, true, true])
    );
    assert_eq!(
        recover_orphaned_policy(&vec![orphan(None, true)]),
        (Err(0), vec![true])
    );
    let kept = Orphan {
        removes: false,
        ..lost
    };
    assert_eq!(recover_orphaned_policy(&vec![kept]), (Err(0), vec![true]));
}

#[test]
fn a_policy_is_removed_after_it_was_taken_back() {
    let mut recovery = Recovery::new(2);
    let ask = RecoveryStep::AskOwner(0);
    assert_eq!(recovery.start(), RecoveryVerdict::Go(ask));
    assert_eq!(
        recovery.next(ask, RecoveryReport::OwnerRuns(false)),
        RecoveryVerdict::Go(RecoveryStep::Recover(0))
    );
    assert_eq!(
        recovery.next(RecoveryStep::Recover(0), RecoveryReport::Done),
        RecoveryVerdict::Go(RecoveryStep::Remove(0))
    );
    assert_eq!(
        recovery.next(RecoveryStep::Remove(0), RecoveryReport::Done),
        RecoveryVerdict::Go(RecoveryStep::AskOwner(1))
    );
    assert_eq!(
        recovery.next(RecoveryStep::AskOwner(1), RecoveryReport::OwnerRuns(true)),
        RecoveryVerdict::Finished(RecoveryOutcome::OwnerStillRunning)
    );
    assert_eq!(
        Recovery::new(1).next(RecoveryStep::Recover(0), RecoveryReport::Failed),
        RecoveryVerdict::Stopped(0)
    );
    assert_eq!(
        Recovery::new(1).next(RecoveryStep::Recover(1), RecoveryReport::Done),
        RecoveryVerdict::Stopped(1)
    );
}

#[test]
fn recognizes_known_usb_tether_drivers() {
    assert!(is_tether_driver("rndis_host"));
    assert!(is_tether_driver("cdc_ncm"));
    assert!(is_tether_driver("cdc_ether"));
    assert!(is_tether_driver("cdc_mbim"));
    assert!(is_tether_driver("cdc_subset"));
    assert!(is_tether_driver("ipheth"));
}

#[test]
fn does_not_recognize_normal_network_drivers() {
    assert!(!is_tether_driver("r8169"));
    assert!(!is_tether_driver("e1000e"));
    assert!(!is_tether_driver("iwlwifi"));
    assert!(!is_tether_driver("tailscale"));
    assert!(!is_tether_driver("veth"));
    assert!(!is_tether_driver("bridge"));
    assert!(!is_tether_driver(""));
}

#[test]
fn nlmsg_align_matches_kernel_macro() {
    assert_eq!(nlmsg_align(0), 0);
    assert_eq!(nlmsg_align(1), 4);
    assert_eq!(nlmsg_align(4), 4);
    assert_eq!(nlmsg_align(5), 8);
    assert_eq!(nlmsg_align(16), 16);
    assert_eq!(nlmsg_align(17), 20);
}

#[test]
fn rta_align_matches_kernel_macro() {
    assert_eq!(rta_align(0), 0);
    assert_eq!(rta_align(1), 4);
    assert_eq!(rta_align(4), 4);
    assert_eq!(rta_align(6), 8);
}

#[test]
fn rta_length_matches_kernel_macro() {
    assert_eq!(rta_length(0), 4);
    assert_eq!(rta_length(4), 8);
    assert_eq!(rta_length(1), 5);
}

#[test]
fn is_usb_device_rejects_missing_subsystem_link() {
    let driver: &[u8] = b"rndis_host";
    assert!(!is_tether_device(Some(7), 7, None, Some(driver)));
    assert!(!is_tether_device(Some(7), 7, Some(b"pci"), Some(driver)));
    assert!(!is_tether_device(Some(8), 7, Some(b"usb"), Some(driver)));
    assert!(!is_tether_device(Some(7), 7, Some(b"usb"), None));
    assert!(is_tether_device(Some(7), 7, Some(b"usb"), Some(driver)));
}

fn attribute(kind: u16, value: &[u8]) -> Attribute {
    Attribute {
        kind,
        value: value.to_vec(),
    }
}

fn route(attributes: Vec<Attribute>) -> CapturedRoute {
    CapturedRoute {
        family: 2,
        dst_len: 0,
        src_len: 0,
        tos: 0,
        table: 254,
        protocol: 16,
        scope: 0,
        rtm_type: 1,
        flags: 0,
        attributes,
    }
}

fn ipv4_default_route_via(oif: u32, gateway: [u8; 4]) -> CapturedRoute {
    route(vec![
        attribute(RTA_OIF, &oif.to_ne_bytes()),
        attribute(RTA_GATEWAY, &gateway),
        attribute(RTA_PRIORITY, &600_u32.to_ne_bytes()),
    ])
}

#[test]
fn captured_route_round_trips_through_encode_and_parse() {
    let route = ipv4_default_route_via(7, [192, 168, 42, 1]);
    let encoded = encode_route(&route);
    let parsed = parse_route(&encoded).expect("payload parses back");
    assert!(parsed.is_same(&route));
    assert_eq!(parsed.oif(), Some(7));
    assert_eq!(parsed.effective_table(), RT_TABLE_MAIN);
    assert!(parsed.is_default_route() && parsed.is_governed(7) && !parsed.is_governed(8));
}

#[test]
fn captured_route_with_odd_length_attribute_round_trips() {
    let mut route = route(vec![
        attribute(RTA_OIF, &3_u32.to_ne_bytes()),
        attribute(RTA_TABLE, &[254]),
    ]);
    route.protocol = 4;
    let encoded = encode_route(&route);
    let parsed = parse_route(&encoded).expect("payload parses back");
    assert!(parsed.is_same(&route));
    assert_eq!(parsed.attributes[1].value, [254]);
}

#[test]
fn other_routes_are_not_governed() {
    let mut other = ipv4_default_route_via(7, [192, 168, 42, 1]);
    other.attributes.insert(0, attribute(RTA_DST, &[10, 0, 0, 0]));
    other.dst_len = 8;
    assert!(!other.is_governed(7));
    let gateway = ipv4_default_route_via(7, [192, 168, 42, 1]);
    let newer = ipv4_default_route_via(7, [192, 168, 42, 2]);
    let present = vec![gateway.clone()];
    assert_eq!(absent_routes(&vec![gateway, newer], &present), [1]);
}

#[test]
fn encode_message_records_unaligned_length_and_pads_buffer() {
    let payload = [0xAB_u8];
    let message = encode_message(24, 1, 42, 7, &payload);
    let nlmsg_len = u32::from_ne_bytes(message[0..4].try_into().unwrap());
    assert_eq!(nlmsg_len as usize, NLMSG_HDRLEN + payload.len());
    assert_eq!(message.len(), nlmsg_align(NLMSG_HDRLEN + payload.len()));
    let seq = u32::from_ne_bytes(message[8..12].try_into().unwrap());
    let pid = u32::from_ne_bytes(message[12..16].try_into().unwrap());
    assert_eq!(seq, 42);
    assert_eq!(pid, 7);
    assert_eq!(message[NLMSG_HDRLEN], 0xAB);
}

#[test]
fn parse_route_rejects_truncated_payload() {
    assert!(parse_route(&[0_u8; 4]).is_none());
}

#[test]
fn parse_route_ignores_uncaptured_attribute_types() {
    let mut payload = vec![0_u8; RTM_HDRLEN];
    payload[0] = 2;
    push_attribute(&mut payload, 12, &[1, 2, 3, 4]);
    push_attribute(&mut payload, RTA_OIF, &5_u32.to_ne_bytes());
    let route = parse_route(&payload).expect("payload parses");
    assert!(route.attributes.iter().all(|attribute| attribute.kind != 12));
    assert_eq!(route.oif(), Some(5));
}

#[test]
fn queries_name_the_peer_and_replies_the_interface() {
    let query = peer_query(v4(192, 168, 42, 129));
    assert_eq!(query.len(), RTM_HDRLEN + 8);
    assert_eq!(query[..2], [2, 32]);
    assert_eq!(query[RTM_HDRLEN..], [8, 0, 1, 0, 192, 168, 42, 129]);
    let query = peer_query(v6(0xfe80_0000_0000_0000, 1));
    assert_eq!((query[0], query[1], query.len()), (10, 128, RTM_HDRLEN + 20));
    assert_eq!(dump_query(2), [2, 0, 0, 0, 0, 0, 0, 0, 0, 0, 0, 0]);

    let gateway = ipv4_default_route_via(7, [192, 168, 42, 1]);
    let other = ipv4_default_route_via(8, [192, 168, 43, 1]);
    let bodies = vec![encode_route(&other), encode_route(&gateway), vec![0; 3]];
    assert_eq!(reply_interface(&bodies), Ok(8));
    assert!(reply_interface(&vec![]).is_err());
    assert!(reply_interface(&vec![encode_route(&route(vec![]))]).is_err());
    let routes = default_routes(&bodies, 7);
    assert_eq!(routes.len(), 1);
    assert!(routes[0].is_same(&gateway));
}

#[test]
fn replies_are_read_to_their_end() {
    let mut bodies = Vec::new();
    let first = encode_message(24, NLM_F_MULTI, 42, 7, b"body");
    let mut buffer = encode_message(24, NLM_F_MULTI, 41, 7, b"old!");
    buffer.extend_from_slice(&first);
    assert_eq!(read_replies(&buffer, 42, 7, &mut bodies), Replies::More);
    assert_eq!(bodies, [b"body".to_vec()]);
    let done = encode_message(NLMSG_DONE, NLM_F_MULTI, 42, 7, &[0; 4]);
    assert_eq!(read_replies(&done, 42, 7, &mut bodies), Replies::Complete);
    let refused = encode_message(NLMSG_ERROR, 0, 42, 7, &(-1_i32).to_ne_bytes());
    assert_eq!(read_replies(&refused, 42, 7, &mut bodies), Replies::Refused(1));
    let numberless = encode_message(NLMSG_ERROR, 0, 42, 7, &[1, 2]);
    assert_eq!(read_replies(&numberless, 42, 7, &mut bodies), Replies::Truncated);
    assert_eq!(read_replies(&first[..18], 42, 7, &mut bodies), Replies::More);
    assert_eq!(deletion_outcome(3), ChangeOutcome::Done);
    assert_eq!(deletion_outcome(1), ChangeOutcome::Denied);
    assert_eq!(creation_outcome(17), ChangeOutcome::Done);
    assert_eq!(creation_outcome(13), ChangeOutcome::Denied);
    assert_eq!(creation_outcome(22), ChangeOutcome::Failed);
}

fn entry(name: &[u8], index: u32, last: u8) -> InterfaceEntry {
    InterfaceEntry {
        name: name.to_vec(),
        index,
        up: true,
        loopback: false,
        address: Some(v4(192, 168, 42, last)),
        netmask: Some(v4(255, 255, 255, 0)),
    }
}

#[test]
fn only_one_interface_may_reach_the_phone() {
    let local = v4(192, 168, 42, 10);
    let peer = v4(192, 168, 42, 129);
    let mut lower = entry(b"eth0", 3, 10);
    let entries = vec![entry(b"usb0", 7, 10)];
    assert!(unambiguous_interface(&entries, local, peer).is_some());
    assert!(unambiguous_interface(&entries, v4(192, 168, 42, 9), peer).is_none());
    let entries = vec![entry(b"usb0", 7, 10), lower.clone()];
    assert!(unambiguous_interface(&entries, local, peer).is_none());
    lower.up = false;
    let entries = vec![entry(b"usb0", 7, 10), lower];
    assert!(unambiguous_interface(&entries, local, peer).is_some());
    let listeners = tether_listeners(&entries, &vec![device(7)]);
    assert_eq!(listeners.len(), 1);
    assert_eq!(listeners[0].index, 7);
}

#[test]
fn the_route_tool_is_believed_only_when_clean() {
    assert_eq!(inspect_routes(b"", b" \n", true), Inspection::Present(false));
    assert_eq!(
        inspect_routes(b"default dev usb0\n", b"", true),
        Inspection::Present(true)
    );
    assert_eq!(inspect_routes(b"", b"warning", true), Inspection::Warned);
    assert_eq!(inspect_routes(b"", b"", false), Inspection::Failed);
    let long = vec![b' '; MAX_IP_OUTPUT + 1];
    assert_eq!(inspect_routes(&long, b"", true), Inspection::TooLarge);
    assert!(trusted_file(true, 0, 0o755) && !trusted_file(true, 0, 0o775));
    assert!(!trusted_file(true, 1000, 0o755) && !trusted_file(true, 0, 0o644));
    assert!(trusted_directory(true, 0, 0o755) && !trusted_directory(true, 0, 0o757));
}

#[test]
fn kernel_attributes_are_read_strictly() {
    assert_eq!(read_index("7\n"), Some(7));
    assert_eq!(read_index("seven"), None);
    assert_eq!(flags_say_up("0x1003\n").ok(), Some(true));
    assert_eq!(flags_say_up("0x1002\n").ok(), Some(false));
    assert!(flags_say_up("up").is_err());
    assert!(carrier_says_up("1\n") && !carrier_says_up("0\n"));
}
