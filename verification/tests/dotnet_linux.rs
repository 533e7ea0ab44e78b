use std::collections::HashSet;

use one_collect::dotnet::linux::{
    dotnet_tracepoint_name, enable_events_message, is_dotnet_mapping, enable_response_ok, perf_map_environ, split_proxy_events,
    tracefs_safe_name, DotNetFactoryError, LinuxDotNetEvent, LinuxDotNetProvider, OSDotNetEventFactory,
    UserEventProviderEvents, UserEventTracepointEvents,
};
use one_collect::event::Event;
use one_collect::dotnet::DotNetScenario;

#[test]
fn proxy_ids_select_runtime_events() {
    let mut provider = LinuxDotNetProvider::new();
    provider.add_event(1, LinuxDotNetEvent { proxy_id: 10, keyword: 0x1, level: 4 });
    provider.add_event(80, LinuxDotNetEvent { proxy_id: 11, keyword: 0x8000, level: 2 });
    provider.add_event(1, LinuxDotNetEvent { proxy_id: 12, keyword: 0x10, level: 1 });

    let proxies: HashSet<usize> = [10, 11].into_iter().collect();
    let mut ids = HashSet::new();
    let mut keyword = 0x100u64;
    let mut level = 0u8;
    provider.proxy_id_to_events(&proxies, &mut ids, &mut keyword, &mut level);

    let expected: HashSet<usize> = [1, 80].into_iter().collect();
    assert_eq!(expected, ids);
    assert_eq!(0x8101, keyword);
    /* Levels are or-ed */
    assert_eq!(6, level);
}

#[test]
fn factory_records_proxy_events() {
    let mut next = 100usize;
    let mut factory = OSDotNetEventFactory::new(move |name: String| {
        if name == "Missing" {
            return None;
        }
        next += 1;
        Some(Event::new(next, name))
    });

    let event = factory.new_event("Microsoft-Windows-DotNETRuntime", 0x1, 4, 1, "GCStart".into()).unwrap();
    assert_eq!(101, event.id());
    assert_eq!("GCStart", event.name());

    let event = factory.new_event("Microsoft-Windows-DotNETRuntime", 0x1, 4, 2, "GCEnd".into()).unwrap();
    assert_eq!(102, event.id());

    assert!(matches!(
        factory.new_event("Other", 0, 0, 3, "Missing".into()),
        Err(DotNetFactoryError::ProxyFailed)));
}

#[test]
fn tracepoint_names_are_tracefs_safe() {
    let safe = tracefs_safe_name("Microsoft-Windows-DotNETRuntime/Private?*");
    assert_eq!("Microsoft_Windows_DotNETRuntimePrivate", safe);
    assert_eq!("OC_DotNet_Microsoft_Windows_DotNETRuntimePrivate_1234", dotnet_tracepoint_name(&safe, 1234, false));
    assert_eq!("OC_DotNet_Microsoft_Windows_DotNETRuntimePrivate_1234_C", dotnet_tracepoint_name(&safe, 1234, true));
    assert_eq!("OC_DotNet__0", dotnet_tracepoint_name("", 0, false));
}

#[test]
fn proxy_events_split_by_callstack_flag() {
    let wanted: HashSet<usize> = [10, 11, 12].into_iter().collect();
    let events = vec![(10usize, true, false), (11, true, true), (12, false, false), (13, true, false)];
    let mut callstacks = HashSet::new();
    let mut no_callstacks = HashSet::new();
    split_proxy_events(&events, &wanted, &mut callstacks, &mut no_callstacks);
    assert_eq!([10usize].into_iter().collect::<HashSet<usize>>(), callstacks);
    assert_eq!([11usize].into_iter().collect::<HashSet<usize>>(), no_callstacks);
}

#[test]
fn wanted_proxy_ids_collects_each_proxy() {
    let mut provider = LinuxDotNetProvider::new();
    provider.add_event(1, LinuxDotNetEvent { proxy_id: 10, keyword: 0x1, level: 4 });
    provider.add_event(2, LinuxDotNetEvent { proxy_id: 10, keyword: 0x2, level: 4 });
    provider.add_event(3, LinuxDotNetEvent { proxy_id: 11, keyword: 0x2, level: 4 });
    let mut ids: HashSet<usize> = [99].into_iter().collect();
    provider.wanted_proxy_ids(&mut ids);
    assert_eq!([10usize, 11].into_iter().collect::<HashSet<usize>>(), ids);
}

#[test]
fn provider_events_accumulate_keywords_and_level() {
    let mut provider = UserEventProviderEvents::new();
    let first: HashSet<usize> = [1, 2].into_iter().collect();
    provider.add("T1".to_string(), &first, 0x10, 4);
    let second: HashSet<usize> = [0x10003].into_iter().collect();
    provider.add("T2".to_string(), &second, 0x1, 2);
    assert_eq!(0x11, provider.keyword);
    assert_eq!(4, provider.level);
    assert_eq!(3, provider.event_count());
    assert_eq!(Some(3), provider.checked_event_count());
    let mut ids = provider.events[0].events.clone();
    ids.sort();
    assert_eq!(vec![1u16, 2], ids);
    assert_eq!(vec![3u16], provider.events[1].events);
    assert_eq!("T2", provider.events[1].tracepoint);
}

#[test]
fn enable_message_bytes() {
    let provider = UserEventProviderEvents {
        events: vec![UserEventTracepointEvents { tracepoint: "T".to_string(), events: vec![1, 2] }],
        keyword: 0x10,
        level: 4,
    };
    let providers = vec![("P".to_string(), provider)];
    let mut buffer = vec![0xAAu8; 3];
    enable_events_message(&mut buffer, &providers);

    let mut expected: Vec<u8> = b"DOTNET_IPC_V1\0".to_vec();
    expected.extend_from_slice(&[93, 0]);
    expected.extend_from_slice(&[2, 6, 0, 0]);
    expected.extend_from_slice(&1u32.to_le_bytes());
    expected.extend_from_slice(&0u64.to_le_bytes());
    expected.extend_from_slice(&1u32.to_le_bytes());
    expected.extend_from_slice(&0x10u64.to_le_bytes());
    expected.extend_from_slice(&4u32.to_le_bytes());
    expected.extend_from_slice(&[2, 0, 0, 0, b'P', 0, 0, 0]);
    expected.extend_from_slice(&0u32.to_le_bytes());
    expected.push(1);
    expected.extend_from_slice(&2u32.to_le_bytes());
    expected.extend_from_slice(&[1, 0, 2, 0]);
    expected.extend_from_slice(&0u32.to_le_bytes());
    expected.extend_from_slice(&1u32.to_le_bytes());
    expected.extend_from_slice(&[2, 0, 0, 0, b'T', 0, 0, 0]);
    expected.extend_from_slice(&2u32.to_le_bytes());
    expected.extend_from_slice(&[1, 0, 2, 0]);
    assert_eq!(93, expected.len());
    assert_eq!(expected, buffer);
}

#[test]
fn enable_message_without_providers() {
    let mut buffer = Vec::new();
    enable_events_message(&mut buffer, &[]);
    assert_eq!(36, buffer.len());
    assert_eq!(&[36u8, 0], &buffer[14..16]);
}

#[test]
fn enable_response_status() {
    let mut result = [0u8; 20];
    assert!(!enable_response_ok(&result));
    result[16] = 0xFF;
    assert!(enable_response_ok(&result));
    result[17] = 1;
    assert!(!enable_response_ok(&result));
}

#[test]
fn perf_map_environ_entries() {
    assert!(perf_map_environ(b"A=1\0DOTNET_PerfMapEnabled=1\0"));
    assert!(perf_map_environ(b"COMPlus_PerfMapEnabled=2\0B=2\0"));
    assert!(!perf_map_environ(b"DOTNET_PerfMapEnabled=0\0"));
    assert!(!perf_map_environ(b"PATH=/bin\0HOME=/root\0"));
    assert!(!perf_map_environ(b""));
    assert!(!perf_map_environ(b"\xFFDOTNET_PerfMapEnabled=1\0"));
    /* The last entry loses its last byte when no zero byte ends it. */
    assert!(perf_map_environ(b"DOTNET_PerfMapEnabled=10"));
    assert!(!perf_map_environ(b"DOTNET_PerfMapEnabled=0x"));
    assert!(perf_map_environ(b"DOTNET_PerfMapEnabled=1"));
}

#[test]
fn dotnet_processes_are_seen_by_their_double_mapping() {
    assert!(is_dotnet_mapping(5, "/memfd:doublemapper"));
    assert!(!is_dotnet_mapping(3, "/memfd:doublemapper"));
    assert!(!is_dotnet_mapping(5, "/memfd:doublemapper (deleted)"));
    assert!(!is_dotnet_mapping(4, "/usr/lib/libc.so"));
}

#[test]
fn runtime_samples_register_through_factory() {
    let mut scenario = DotNetScenario::new();
    scenario.with_gc_times();
    scenario.with_exceptions();

    let mut next = 10usize;
    let mut factory = OSDotNetEventFactory::new(move |name: String| {
        next += 1;
        Some(Event::new(next, name))
    });
    let list = scenario.register_runtime_samples(&mut factory).unwrap();
    assert_eq!(3, list.len());
    for (event, sample) in list.iter() {
        assert_eq!(sample.name(), event.name());
        assert_eq!(sample.format().fields().len(), event.format().fields().len());
    }
    assert_eq!(11, list[0].0.id());
    assert_eq!(1, list[0].1.id());

    let mut failing = OSDotNetEventFactory::new(|_name: String| None);
    assert!(matches!(
        scenario.register_runtime_samples(&mut failing),
        Err(DotNetFactoryError::ProxyFailed)
    ));
}
