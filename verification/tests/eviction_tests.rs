use visor::eviction::{
    elapsed_seconds, is_over_limit, rank_candidates, select_victim, step, EvictionAction, EvictionEvent,
    EvictionOutcome, EvictionState,
};
use visor::instance::{Instance, InstanceConfig, ResolutionError};
use visor::records::{
    Config, ContainerRecord, ExternalCallError, Lifecycle, PortBinding, ResourceSnapshot,
};
use visor::wechat::{ListDetailUsersResponse, User, UserDirectory};
use visor::whitelist::Whitelist;

fn strings(items: &[&str]) -> Vec<String> {
    items.iter().map(|s| s.to_string()).collect()
}

fn container(id: &str, name: &str, status: &str) -> ContainerRecord {
    ContainerRecord {
        id: id.to_string(),
        names: vec![name.to_string()],
        status: status.to_string(),
        image: "ones:latest".to_string(),
        ports: vec![PortBinding { private_port: 443, public_port: Some(10443) }],
    }
}

fn config() -> Config {
    Config {
        notify_webhook: "https://example.invalid/hook".to_string(),
        cpu_limit: 8000,
        mem_limit: 9000,
        serv_url: String::new(),
        department_id: 7,
        lifecycle: Lifecycle { container: 3, pkg: 5, release: 7, image_created: 9 },
    }
}

fn usage(cpu: u32, mem: u32, disk: u32) -> ResourceSnapshot {
    ResourceSnapshot { cpu, mem, disk, taken_at: 1_700_000_000 }
}

fn no_whitelist() -> Whitelist {
    Whitelist::new(&vec![], &vec![], &vec![], &vec![])
}

fn three_containers() -> Vec<ContainerRecord> {
    vec![
        container("aaaaaaaaaaaaaaaa", "/ten", "Up 10 days"),
        container("bbbbbbbbbbbbbbbb", "/three", "Up 3 days"),
        container("cccccccccccccccc", "/thirty", "Up 30 days"),
    ]
}

#[test]
fn longest_running_container_is_selected() {
    let listing = three_containers();
    assert_eq!(select_victim(&no_whitelist(), &listing), Some(2));
}

#[test]
fn whitelisted_container_is_no_candidate() {
    let listing = three_containers();
    let w = Whitelist::new(&strings(&["cccccccccccccccc"]), &vec![], &vec![], &vec![]);
    let victim = select_victim(&w, &listing);
    assert_ne!(victim, Some(2));
    assert_eq!(victim, Some(0));
    let w = Whitelist::new(
        &strings(&["cccccccccccccccc", "aaaaaaaaaaaaaaaa"]),
        &vec![],
        &vec![],
        &vec![],
    );
    assert_eq!(select_victim(&w, &listing), Some(1));
    let w = Whitelist::new(&vec![], &strings(&["/thirty", "/ten", "/three"]), &vec![], &vec![]);
    assert_eq!(select_victim(&w, &listing), None);
}

#[test]
fn first_listed_wins_among_equals() {
    let listing = vec![
        container("a", "/a", "Up 2 hours"),
        container("b", "/b", "Up 5 days"),
        container("c", "/c", "Up 5 days"),
        container("d", "/d", "Up 120 hours"),
    ];
    assert_eq!(select_victim(&no_whitelist(), &listing), Some(1));
    let w = Whitelist::new(&strings(&["b"]), &vec![], &vec![], &vec![]);
    assert_eq!(select_victim(&w, &listing), Some(2));
}

#[test]
fn unreadable_status_counts_as_no_time() {
    assert_eq!(elapsed_seconds(&container("a", "/a", "Up About a minute")), 0);
    assert_eq!(elapsed_seconds(&container("a", "/a", "")), 0);
    assert_eq!(elapsed_seconds(&container("a", "/a", "Up 2 minutes")), 120);
    let listing = vec![
        container("a", "/a", "Up Less than a second"),
        container("b", "/b", ""),
        container("c", "/c", "Up 1 seconds"),
    ];
    assert_eq!(select_victim(&no_whitelist(), &listing), Some(2));
    let listing = vec![container("a", "/a", "garbage"), container("b", "/b", "")];
    assert_eq!(select_victim(&no_whitelist(), &listing), Some(0));
    assert_eq!(select_victim(&no_whitelist(), &vec![]), None);
}

#[test]
fn only_cpu_and_memory_gate_eviction() {
    let cfg = config();
    assert!(!is_over_limit(&usage(8000, 9000, 9999), &cfg));
    assert!(is_over_limit(&usage(8001, 0, 0), &cfg));
    assert!(is_over_limit(&usage(0, 9001, 0), &cfg));
    assert!(!is_over_limit(&usage(0, 0, 10000), &cfg));
}

#[test]
fn healthy_sample_ends_the_loop() {
    let mut dir = UserDirectory::new();
    let (state, action) = step(
        EvictionState::Sampling,
        EvictionEvent::Sampled { usage: usage(100, 100, 9999) },
        &config(),
        &no_whitelist(),
        &mut dir,
    );
    assert_eq!(state, EvictionState::Finished { outcome: EvictionOutcome::Healthy });
    assert_eq!(action, EvictionAction::Finish);
}

#[test]
fn no_candidate_ends_the_loop_unresolved() {
    let mut dir = UserDirectory::new();
    let cfg = config();
    let w = Whitelist::new(&vec![], &strings(&["/thirty", "/ten", "/three"]), &vec![], &vec![]);
    let (state, action) = step(
        EvictionState::Sampling,
        EvictionEvent::Sampled { usage: usage(9900, 100, 0) },
        &cfg,
        &w,
        &mut dir,
    );
    assert_eq!(state, EvictionState::Listing);
    assert_eq!(action, EvictionAction::ListRunning);
    let (state, action) =
        step(state, EvictionEvent::Listed { containers: three_containers() }, &cfg, &w, &mut dir);
    assert_eq!(state, EvictionState::Finished { outcome: EvictionOutcome::NoVictim });
    assert_eq!(action, EvictionAction::Finish);
    let (state, action) =
        step(state, EvictionEvent::Listed { containers: vec![] }, &cfg, &w, &mut dir);
    assert_eq!(state, EvictionState::Finished { outcome: EvictionOutcome::NoVictim });
    assert_eq!(action, EvictionAction::Finish);
}

#[test]
fn one_round_stops_one_container_and_notifies() {
    let cfg = config();
    let w = no_whitelist();
    let mut dir = UserDirectory::new();
    let victim = container("cccccccccccccccc", "/thirty", "Up 30 days");
    let instance = Instance {
        owner: "li@ones.ai".to_string(),
        deploy_dir: "/data/ones/pkg/li".to_string(),
        config: InstanceConfig { base_url: "https://li.example".to_string(), volume: "v".to_string() },
    };

    let (state, action) = step(
        EvictionState::Sampling,
        EvictionEvent::Sampled { usage: usage(100, 9500, 0) },
        &cfg,
        &w,
        &mut dir,
    );
    assert_eq!((&state, &action), (&EvictionState::Listing, &EvictionAction::ListRunning));

    let (state, action) =
        step(state, EvictionEvent::Listed { containers: three_containers() }, &cfg, &w, &mut dir);
    assert_eq!(state, EvictionState::Stopping { victim: victim.clone() });
    assert_eq!(action, EvictionAction::Stop { id: "cccccccccccccccc".to_string() });

    let (state, action) = step(state, EvictionEvent::Stopped, &cfg, &w, &mut dir);
    assert_eq!(state, EvictionState::Resolving { victim: victim.clone() });
    assert_eq!(action, EvictionAction::ResolveOwner { https_port: 10443 });

    let (state, action) = step(
        state,
        EvictionEvent::OwnerResolved { instance: instance.clone() },
        &cfg,
        &w,
        &mut dir,
    );
    assert_eq!(
        state,
        EvictionState::Refreshing { victim: victim.clone(), instance: instance.clone() }
    );
    assert_eq!(action, EvictionAction::RefreshDirectory { department_id: 7 });

    let users = ListDetailUsersResponse {
        errcode: 0,
        errmsg: "ok".to_string(),
        userlist: vec![User {
            userid: "LiLei".to_string(),
            name: "Li Lei".to_string(),
            email: "li@ones.ai".to_string(),
        }],
    };
    let (state, action) =
        step(state, EvictionEvent::DirectoryRefreshed { users }, &cfg, &w, &mut dir);
    assert_eq!(
        state,
        EvictionState::Reporting {
            victim: victim.clone(),
            instance: instance.clone(),
            mention: Some("LiLei".to_string()),
        }
    );
    assert_eq!(action, EvictionAction::Sample);
    assert_eq!(dir.get("li@ones.ai"), Some(&"LiLei".to_string()));

    let (state, action) = step(
        state,
        EvictionEvent::Sampled { usage: usage(4000, 5000, 6000) },
        &cfg,
        &w,
        &mut dir,
    );
    assert_eq!(state, EvictionState::Notifying);
    match action {
        EvictionAction::Notify { message, mention } => {
            assert_eq!(mention, Some("LiLei".to_string()));
            assert!(message.contains("docker start cccccccccccc</font>"));
            assert!(message.contains("li@ones.ai"));
            assert!(message.contains("30 days"));
            assert!(message.contains("> CPU: <font color=\"comment\">40%</font>"));
        }
        other => panic!("unexpected action {:?}", other),
    }

    let (state, action) = step(state, EvictionEvent::NotifyFailed, &cfg, &w, &mut dir);
    assert_eq!((state, action), (EvictionState::Sampling, EvictionAction::Sample));
    let (state, action) =
        step(EvictionState::Notifying, EvictionEvent::Notified, &cfg, &w, &mut dir);
    assert_eq!((state, action), (EvictionState::Sampling, EvictionAction::Sample));
}

#[test]
fn owner_on_file_needs_no_refresh() {
    let cfg = config();
    let w = no_whitelist();
    let mut dir = UserDirectory::new();
    dir.insert("li@ones.ai".to_string(), "LiLei".to_string());
    let victim = container("c", "/c", "Up 30 days");
    let instance = Instance {
        owner: "li@ones.ai".to_string(),
        deploy_dir: "/d".to_string(),
        config: InstanceConfig::default(),
    };
    let (state, action) = step(
        EvictionState::Resolving { victim: victim.clone() },
        EvictionEvent::OwnerResolved { instance: instance.clone() },
        &cfg,
        &w,
        &mut dir,
    );
    assert_eq!(
        state,
        EvictionState::Reporting { victim, instance, mention: Some("LiLei".to_string()) }
    );
    assert_eq!(action, EvictionAction::Sample);
}

#[test]
fn server_error_on_stop_ends_the_loop() {
    let cfg = config();
    let w = no_whitelist();
    let mut dir = UserDirectory::new();
    let victim = container("c", "/c", "Up 30 days");
    let (state, action) = step(
        EvictionState::Stopping { victim },
        EvictionEvent::StopFailed { error: ExternalCallError::ServerError("boom".to_string()) },
        &cfg,
        &w,
        &mut dir,
    );
    assert_eq!(
        state,
        EvictionState::Finished { outcome: EvictionOutcome::StopFailed("boom".to_string()) }
    );
    assert_eq!(action, EvictionAction::Finish);
}

#[test]
fn other_stop_failure_goes_on() {
    let cfg = config();
    let w = no_whitelist();
    let mut dir = UserDirectory::new();
    let victim = container("c", "/c", "Up 30 days");
    let (state, action) = step(
        EvictionState::Stopping { victim: victim.clone() },
        EvictionEvent::StopFailed { error: ExternalCallError::Other("gone".to_string()) },
        &cfg,
        &w,
        &mut dir,
    );
    assert_eq!(state, EvictionState::Resolving { victim });
    assert_eq!(action, EvictionAction::ResolveOwner { https_port: 10443 });
}

#[test]
fn unresolved_owner_goes_on_with_an_empty_instance() {
    let cfg = config();
    let w = no_whitelist();
    let mut dir = UserDirectory::new();
    let victim = container("c", "/c", "Up 30 days");
    let (state, action) = step(
        EvictionState::Resolving { victim: victim.clone() },
        EvictionEvent::OwnerUnresolved { reason: ResolutionError::LookupFailed },
        &cfg,
        &w,
        &mut dir,
    );
    assert_eq!(
        state,
        EvictionState::Refreshing { victim: victim.clone(), instance: Instance::default() }
    );
    assert_eq!(action, EvictionAction::RefreshDirectory { department_id: 7 });

    let (state, action) = step(state, EvictionEvent::DirectoryUnavailable, &cfg, &w, &mut dir);
    assert_eq!(
        state,
        EvictionState::Reporting { victim, instance: Instance::default(), mention: None }
    );
    assert_eq!(action, EvictionAction::Sample);
}

#[test]
fn unpublished_port_counts_as_unresolved_owner() {
    let cfg = config();
    let w = no_whitelist();
    let mut dir = UserDirectory::new();
    let mut victim = container("c", "/c", "Up 30 days");
    victim.ports = vec![PortBinding { private_port: 443, public_port: None }];
    let (state, action) = step(
        EvictionState::Stopping { victim: victim.clone() },
        EvictionEvent::Stopped,
        &cfg,
        &w,
        &mut dir,
    );
    assert_eq!(state, EvictionState::Refreshing { victim, instance: Instance::default() });
    assert_eq!(action, EvictionAction::RefreshDirectory { department_id: 7 });
}

#[test]
fn rejected_directory_answer_files_nothing() {
    let cfg = config();
    let w = no_whitelist();
    let mut dir = UserDirectory::new();
    let victim = container("c", "/c", "Up 30 days");
    let instance = Instance {
        owner: "li@ones.ai".to_string(),
        deploy_dir: "/d".to_string(),
        config: InstanceConfig::default(),
    };
    let users = ListDetailUsersResponse {
        errcode: 40014,
        errmsg: "invalid token".to_string(),
        userlist: vec![User {
            userid: "LiLei".to_string(),
            name: "Li Lei".to_string(),
            email: "li@ones.ai".to_string(),
        }],
    };
    let (state, action) = step(
        EvictionState::Refreshing { victim: victim.clone(), instance: instance.clone() },
        EvictionEvent::DirectoryRefreshed { users },
        &cfg,
        &w,
        &mut dir,
    );
    assert_eq!(state, EvictionState::Reporting { victim, instance, mention: None });
    assert_eq!(action, EvictionAction::Sample);
    assert_eq!(dir.get("li@ones.ai"), None);
}

#[test]
fn failures_to_sample_or_list_end_the_loop() {
    let cfg = config();
    let w = no_whitelist();
    let mut dir = UserDirectory::new();
    let (state, _) =
        step(EvictionState::Sampling, EvictionEvent::SampleFailed, &cfg, &w, &mut dir);
    assert_eq!(state, EvictionState::Finished { outcome: EvictionOutcome::SampleFailed });
    let (state, _) = step(EvictionState::Listing, EvictionEvent::ListFailed, &cfg, &w, &mut dir);
    assert_eq!(state, EvictionState::Finished { outcome: EvictionOutcome::ListFailed });
    let (state, action) = step(
        EvictionState::Reporting {
            victim: container("c", "/c", "Up 1 days"),
            instance: Instance::default(),
            mention: None,
        },
        EvictionEvent::SampleFailed,
        &cfg,
        &w,
        &mut dir,
    );
    assert_eq!(state, EvictionState::Finished { outcome: EvictionOutcome::SampleFailed });
    assert_eq!(action, EvictionAction::Finish);
}

#[test]
fn event_out_of_turn_ends_the_loop() {
    let cfg = config();
    let w = no_whitelist();
    let mut dir = UserDirectory::new();
    let (state, action) =
        step(EvictionState::Sampling, EvictionEvent::Stopped, &cfg, &w, &mut dir);
    assert_eq!(state, EvictionState::Finished { outcome: EvictionOutcome::OutOfTurn });
    assert_eq!(action, EvictionAction::Finish);
    let (state, _) = step(
        EvictionState::Listing,
        EvictionEvent::Sampled { usage: usage(9999, 9999, 0) },
        &cfg,
        &w,
        &mut dir,
    );
    assert_eq!(state, EvictionState::Finished { outcome: EvictionOutcome::OutOfTurn });
    let (state, _) = step(EvictionState::Notifying, EvictionEvent::Stopped, &cfg, &w, &mut dir);
    assert_eq!(state, EvictionState::Finished { outcome: EvictionOutcome::OutOfTurn });
}

#[test]
fn candidates_are_ranked_longest_first_and_stably() {
    let listing = vec![
        container("a", "/a", "Up 2 hours"),
        container("b", "/b", "Up 5 days"),
        container("c", "/c", "Up 1 weeks"),
        container("d", "/d", "Up 120 hours"),
        container("e", "/e", "Up about now"),
        container("f", "/f", "Up 5 days"),
        container("g", "/g", "Up 0 seconds"),
    ];
    assert_eq!(rank_candidates(&no_whitelist(), &listing), vec![2, 1, 3, 5, 0, 4, 6]);
    let w = Whitelist::new(&strings(&["c", "d"]), &strings(&["/g"]), &vec![], &vec![]);
    let order = rank_candidates(&w, &listing);
    assert_eq!(order, vec![1, 5, 0, 4]);
    assert_eq!(select_victim(&w, &listing), Some(order[0]));
    assert_eq!(rank_candidates(&no_whitelist(), &three_containers()), vec![2, 0, 1]);
    assert_eq!(rank_candidates(&no_whitelist(), &vec![]), Vec::<usize>::new());
}
