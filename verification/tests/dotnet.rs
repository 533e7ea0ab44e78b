use one_collect::dotnet::runtime::runtime_event_format;
use one_collect::dotnet::{
    event_full_name, guid_from_provider, DotNetEvent, DotNetEventGroup, DotNetProviderError,
    DotNetProviderFlags, DotNetSampleValue, DotNetScenario, MetricValue,
};
use one_collect::event::LocationType;
use one_collect::{guid_from_provider_name_hash, Guid};

#[test]
fn dotnet_runtime_special_case_is_unchanged() {
    assert_eq!(
        guid_from_provider("Microsoft-Windows-DotNETRuntime").unwrap().to_bytes(),
        Guid::from_u128(0xe13c0d23_ccbc_4e12_931b_d9cc2eee27e4).to_bytes());
}

#[test]
fn generic_name_delegates_to_eventsource_hash() {
    let name = "OneCollect-Test-Provider";
    assert_eq!(
        guid_from_provider(name).unwrap().to_bytes(),
        guid_from_provider_name_hash(name).to_bytes());
}

#[test]
fn guid_literal_is_parsed() {
    assert_eq!(
        guid_from_provider("{E13C0D23-CCBC-4E12-931B-D9CC2EEE27E4}").unwrap().to_bytes(),
        Guid::from_u128(0xE13C0D23_CCBC_4E12_931B_D9CC2EEE27E4).to_bytes());
}

#[test]
fn other_runtime_providers_and_bad_literals() {
    assert_eq!(
        guid_from_provider("Microsoft-DotNETRuntimeMonoProfiler").unwrap().to_bytes(),
        Guid::from_u128(0x7F442D82_0F1D_5155_4B8C_1529EB2E31C2).to_bytes());
    assert_eq!(
        guid_from_provider("Microsoft-Windows-DotNETRuntimeRundown").unwrap().to_bytes(),
        Guid::from_u128(0xA669021C_C450_4609_A035_5AF59AF4DF18).to_bytes());
    assert!(matches!(guid_from_provider("{zz}"), Err(DotNetProviderError::InvalidFormat)));
}

#[test]
fn full_name_formats_guid() {
    let guid = Guid::from_u128(0xe13c0d23_ccbc_4e12_931b_d9cc2eee27e4);
    assert_eq!(
        "Microsoft-Windows-DotNETRuntime:{E13C0D23-CCBC-4E12-931B-D9CC2EEE27E4}/GCStart",
        event_full_name("Microsoft-Windows-DotNETRuntime", guid, "GCStart"));
    let guid = Guid::from_u128(0x00000001_0002_0003_0405_060708090a0b);
    assert_eq!("P:{00000001-0002-0003-0405-060708090A0B}/", event_full_name("P", guid, ""));
}

#[test]
fn provider_flags() {
    let mut flags = DotNetProviderFlags::new();
    assert!(!flags.callstacks());
    flags.with_callstacks_for_keywords(0x10);
    assert!(flags.callstacks());
    assert_eq!(0x10, flags.callstack_keywords());
    flags.with_callstacks();
    assert_eq!(u64::MAX, flags.callstack_keywords());
}

#[test]
fn event_group_widens_keywords_and_level() {
    let mut group = DotNetEventGroup::new();
    group.add(DotNetEvent::new(1, 0x1, 4));
    group.add(DotNetEvent::new(80, 0x8000, 2));
    group.add(DotNetEvent::new(10, 0x1, 5));
    assert_eq!(0x8001, group.keyword());
    assert_eq!(5, group.level());
    assert_eq!(3, group.events().len());
    assert_eq!(80, group.events()[1].id());
}

#[test]
fn scenario_options_enable_events() {
    let mut scenario = DotNetScenario::new();
    scenario.with_gc_times();
    scenario.with_exceptions();
    scenario.with_arm_allocs();
    let ids: Vec<u16> = scenario.runtime().events().iter().map(|e| e.id()).collect();
    assert_eq!(vec![1, 2, 80, 83, 84], ids);
    assert_eq!(0x8801, scenario.runtime().keyword());
    assert_eq!(4, scenario.runtime().level());

    let mut all = DotNetScenario::new();
    all.with_gc_stats();
    all.with_gc_allocs();
    all.with_gc_segments();
    all.with_gc_concurrent_threads();
    all.with_gc_finalizers();
    all.with_gc_suspends();
    all.with_gc_restarts();
    all.with_contentions();
    all.with_tp_worker_threads();
    all.with_tp_worker_thread_adjustments();
    all.with_tp_io_threads();
    all.with_arm_threads();
    assert_eq!(27, all.runtime().events().len());
    assert_eq!(0x14801, all.runtime().keyword());
    assert_eq!(5, all.runtime().level());
}

#[test]
fn runtime_samples_follow_scenario() {
    let mut scenario = DotNetScenario::new();
    scenario.with_gc_allocs();
    scenario.with_exceptions();
    scenario.with_records();

    let samples = scenario.add_runtime_samples();
    assert_eq!(2, samples.len());
    assert_eq!(10, samples[0].id());
    assert_eq!("GCAllocationTick", samples[0].name());
    assert_eq!(8, samples[0].format().fields().len());
    assert_eq!(DotNetSampleValue::BytesAt(10), samples[0].sample_value());
    assert!(samples[0].record());
    assert!(samples[0].no_callstack());
    assert_eq!("ExceptionThrown", samples[1].name());

    scenario.with_callstacks();
    let mut samples = scenario.add_runtime_samples();
    assert!(!samples[1].no_callstack());

    let (format, value) = samples.remove(0).take();
    assert_eq!(8, format.fields().len());
    assert_eq!(DotNetSampleValue::BytesAt(10), value);
}

#[test]
fn runtime_event_schemas() {
    let (name, format, value) = runtime_event_format(1).unwrap();
    assert_eq!("GCStart", name);
    let fields = format.fields();
    assert_eq!(5, fields.len());
    assert_eq!("ClrInstanceID", fields[4].name);
    assert_eq!(16, fields[4].offset);
    assert_eq!(2, fields[4].size);
    assert_eq!(DotNetSampleValue::CountOne, value);

    let (name, format, _) = runtime_event_format(10).unwrap();
    assert_eq!("GCAllocationTick", name);
    assert_eq!(LocationType::StaticUTF16String, format.fields()[5].location);
    assert_eq!(26, format.fields()[6].offset);

    assert!(runtime_event_format(999).is_none());
}

#[test]
fn sample_values_read_payload() {
    let mut data = vec![0u8; 18];
    data[10] = 0x34;
    data[11] = 0x12;
    assert_eq!(MetricValue::Bytes(0x1234), DotNetSampleValue::BytesAt(10).value(&data));
    assert_eq!(MetricValue::Count(0), DotNetSampleValue::CountAt(0).value(&data));
    assert_eq!(MetricValue::Count(1), DotNetSampleValue::CountOne.value(&[]));
}
