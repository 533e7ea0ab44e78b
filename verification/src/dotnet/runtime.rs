//! The runtime events of the .NET scenarios: which events each scenario
//! option enables, and the schema of each event.

use vstd::prelude::*;

use super::{DotNetEvent, DotNetSample, DotNetSampleValue, DotNetScenario};
use super::linux::{provider_events, DotNetFactoryError, OSDotNetEventFactory};
use crate::event::Event;
use crate::etw::{field_is, push_field};
use crate::event::{EventField, EventFormat, LocationType};

verus! {

/// A field of a schema: name, type, location, offset and size.
pub type FieldSpec = (Seq<char>, Seq<char>, LocationType, int, int);

/// Whether the fields are those of the schema, in order.
pub open spec fn fields_match(fs: Seq<EventField>, specs: Seq<FieldSpec>) -> bool {
    &&& fs.len() == specs.len()
    &&& forall|i: int| 0 <= i < fs.len() ==> #[trigger] field_is(fs[i], specs[i].0, specs[i].1, specs[i].2, specs[i].3, specs[i].4)
}

/// The schema of each runtime event the scenarios know: its name, its
/// fields (name, type, location, offset, size) and the sample it gives.
pub open spec fn runtime_schema(id: u16) -> Option<(Seq<char>, Seq<FieldSpec>, DotNetSampleValue)> {
    if id == 1 {
        Some(("GCStart"@, seq![("Count"@, "u32"@, LocationType::Static, 0int, 4int), ("Depth"@, "u32"@, LocationType::Static, 4int, 4int), ("Reason"@, "u32"@, LocationType::Static, 8int, 4int), ("Type"@, "u32"@, LocationType::Static, 12int, 4int), ("ClrInstanceID"@, "u16"@, LocationType::Static, 16int, 2int)], DotNetSampleValue::CountOne))
    } else if id == 2 {
        Some(("GCEnd"@, seq![("Count"@, "u32"@, LocationType::Static, 0int, 4int), ("Depth"@, "u32"@, LocationType::Static, 4int, 4int), ("ClrInstanceID"@, "u16"@, LocationType::Static, 8int, 2int)], DotNetSampleValue::CountOne))
    } else if id == 3 {
        Some(("GCRestartEEEnd"@, Seq::empty(), DotNetSampleValue::CountOne))
    } else if id == 4 {
        Some(("GCHeapStats"@, seq![("GenerationSize0"@, "u64"@, LocationType::Static, 0int, 8int), ("TotalPromotedSize0"@, "u64"@, LocationType::Static, 8int, 8int), ("GenerationSize1"@, "u64"@, LocationType::Static, 16int, 8int), ("TotalPromotedSize1"@, "u64"@, LocationType::Static, 24int, 8int), ("GenerationSize2"@, "u64"@, LocationType::Static, 32int, 8int), ("TotalPromotedSize2"@, "u64"@, LocationType::Static, 40int, 8int), ("GenerationSize3"@, "u64"@, LocationType::Static, 48int, 8int), ("TotalPromotedSize3"@, "u64"@, LocationType::Static, 56int, 8int), ("FinalizationPromotedSize"@, "u64"@, LocationType::Static, 64int, 8int), ("FinalizationPromotedCount"@, "u64"@, LocationType::Static, 72int, 8int), ("PinnedObjectCount"@, "u32"@, LocationType::Static, 80int, 4int), ("SinkBlockCount"@, "u32"@, LocationType::Static, 84int, 4int), ("GCHandleCount"@, "u32"@, LocationType::Static, 88int, 4int), ("ClrInstanceID"@, "u16"@, LocationType::Static, 92int, 2int), ("GenerationSize4"@, "u64"@, LocationType::Static, 94int, 8int), ("TotalPromotedSize4"@, "u64"@, LocationType::Static, 102int, 8int)], DotNetSampleValue::CountOne))
    } else if id == 5 {
        Some(("GCCreateSegment"@, seq![("Address"@, "u64"@, LocationType::Static, 0int, 8int), ("Size"@, "u64"@, LocationType::Static, 8int, 8int), ("Type"@, "u32"@, LocationType::Static, 16int, 4int), ("ClrInstanceID"@, "u16"@, LocationType::Static, 20int, 2int)], DotNetSampleValue::CountOne))
    } else if id == 6 {
        Some(("GCFreeSegment"@, seq![("Address"@, "u64"@, LocationType::Static, 0int, 8int), ("ClrInstanceID"@, "u16"@, LocationType::Static, 8int, 2int)], DotNetSampleValue::CountOne))
    } else if id == 7 {
        Some(("GCRestartEEBegin"@, Seq::empty(), DotNetSampleValue::CountOne))
    } else if id == 8 {
        Some(("GCSuspendEEEnd"@, Seq::empty(), DotNetSampleValue::CountOne))
    } else if id == 9 {
        Some(("GCSuspendEE"@, seq![("Reason"@, "u16"@, LocationType::Static, 0int, 2int), ("Count"@, "u32"@, LocationType::Static, 2int, 4int), ("ClrInstanceID"@, "u16"@, LocationType::Static, 6int, 2int)], DotNetSampleValue::CountOne))
    } else if id == 10 {
        Some(("GCAllocationTick"@, seq![("AllocationAmount"@, "u32"@, LocationType::Static, 0int, 4int), ("AllocationKind"@, "u32"@, LocationType::Static, 4int, 4int), ("ClrInstanceID"@, "u16"@, LocationType::Static, 8int, 2int), ("AllocationAmount64"@, "u64"@, LocationType::Static, 10int, 8int), ("TypeId"@, "u64"@, LocationType::Static, 18int, 8int), ("TypeName"@, "wchar"@, LocationType::StaticUTF16String, 26int, 0int), ("HeapIndex"@, "u32"@, LocationType::Static, 26int, 4int), ("Address"@, "u64"@, LocationType::Static, 26int, 8int)], DotNetSampleValue::BytesAt(10)))
    } else if id == 11 {
        Some(("GCCreateConcurrentThread"@, Seq::empty(), DotNetSampleValue::CountOne))
    } else if id == 12 {
        Some(("GCTerminateConcurrentThread"@, Seq::empty(), DotNetSampleValue::CountOne))
    } else if id == 13 {
        Some(("GCFinalizersEnd"@, seq![("Count"@, "u32"@, LocationType::Static, 0int, 4int), ("ClrInstanceID"@, "u16"@, LocationType::Static, 4int, 2int)], DotNetSampleValue::CountOne))
    } else if id == 14 {
        Some(("GCFinalizersBegin"@, Seq::empty(), DotNetSampleValue::CountOne))
    } else if id == 44 {
        Some(("IOThreadCreate"@, seq![("Count"@, "u64"@, LocationType::Static, 0int, 8int), ("NumRetired"@, "u64"@, LocationType::Static, 8int, 8int), ("ClrInstanceID"@, "u16"@, LocationType::Static, 16int, 2int)], DotNetSampleValue::CountAt(0)))
    } else if id == 45 {
        Some(("IOThreadTerminate"@, seq![("Count"@, "u64"@, LocationType::Static, 0int, 8int), ("NumRetired"@, "u64"@, LocationType::Static, 8int, 8int), ("ClrInstanceID"@, "u16"@, LocationType::Static, 16int, 2int)], DotNetSampleValue::CountAt(0)))
    } else if id == 46 {
        Some(("IOThreadRetire"@, seq![("Count"@, "u64"@, LocationType::Static, 0int, 8int), ("NumRetired"@, "u64"@, LocationType::Static, 8int, 8int), ("ClrInstanceID"@, "u16"@, LocationType::Static, 16int, 2int)], DotNetSampleValue::CountAt(0)))
    } else if id == 47 {
        Some(("IOThreadUnretire"@, seq![("Count"@, "u64"@, LocationType::Static, 0int, 8int), ("NumRetired"@, "u64"@, LocationType::Static, 8int, 8int), ("ClrInstanceID"@, "u16"@, LocationType::Static, 16int, 2int)], DotNetSampleValue::CountAt(0)))
    } else if id == 50 {
        Some(("ThreadPoolWorkerThreadStart"@, seq![("ActiveWorkerThreadCount"@, "u32"@, LocationType::Static, 0int, 4int), ("RetiredWorkerThreadCount"@, "u32"@, LocationType::Static, 4int, 4int), ("ClrInstanceID"@, "u16"@, LocationType::Static, 8int, 2int)], DotNetSampleValue::CountOne))
    } else if id == 51 {
        Some(("ThreadPoolWorkerThreadStop"@, seq![("ActiveWorkerThreadCount"@, "u32"@, LocationType::Static, 0int, 4int), ("RetiredWorkerThreadCount"@, "u32"@, LocationType::Static, 4int, 4int), ("ClrInstanceID"@, "u16"@, LocationType::Static, 8int, 2int)], DotNetSampleValue::CountOne))
    } else if id == 52 {
        Some(("ThreadPoolWorkerThreadRetirementStart"@, seq![("ActiveWorkerThreadCount"@, "u32"@, LocationType::Static, 0int, 4int), ("RetiredWorkerThreadCount"@, "u32"@, LocationType::Static, 4int, 4int), ("ClrInstanceID"@, "u16"@, LocationType::Static, 8int, 2int)], DotNetSampleValue::CountOne))
    } else if id == 53 {
        Some(("ThreadPoolWorkerThreadRetirementStop"@, seq![("ActiveWorkerThreadCount"@, "u32"@, LocationType::Static, 0int, 4int), ("RetiredWorkerThreadCount"@, "u32"@, LocationType::Static, 4int, 4int), ("ClrInstanceID"@, "u16"@, LocationType::Static, 8int, 2int)], DotNetSampleValue::CountOne))
    } else if id == 54 {
        Some(("ThreadPoolWorkerThreadAdjustmentSample"@, seq![("Throughput"@, "double"@, LocationType::Static, 0int, 8int), ("ClrInstanceID"@, "u16"@, LocationType::Static, 8int, 2int)], DotNetSampleValue::CountAt(0)))
    } else if id == 55 {
        Some(("ThreadPoolWorkerThreadAdjustmentAdjustment"@, seq![("AverageThroughput"@, "double"@, LocationType::Static, 0int, 8int), ("NewWorkerThreadCount"@, "u32"@, LocationType::Static, 8int, 4int), ("Reason"@, "u32"@, LocationType::Static, 12int, 4int), ("ClrInstanceID"@, "u16"@, LocationType::Static, 16int, 2int)], DotNetSampleValue::CountAt(0)))
    } else if id == 56 {
        Some(("ThreadPoolWorkerThreadAdjustmentStats"@, seq![("Duration"@, "double"@, LocationType::Static, 0int, 8int), ("Throughput"@, "double"@, LocationType::Static, 8int, 8int), ("ThreadWave"@, "double"@, LocationType::Static, 16int, 8int), ("ThroughputWave"@, "double"@, LocationType::Static, 24int, 8int), ("ThroughputErrorEstimate"@, "double"@, LocationType::Static, 32int, 8int), ("AverageThroughputErrorEstimate"@, "double"@, LocationType::Static, 40int, 8int), ("ThroughputRatio"@, "double"@, LocationType::Static, 48int, 8int), ("Confidence"@, "double"@, LocationType::Static, 56int, 8int), ("NewControlSetting"@, "double"@, LocationType::Static, 64int, 8int), ("NewThreadWaveMagnitude"@, "u16"@, LocationType::Static, 72int, 2int), ("ClrInstanceID"@, "u16"@, LocationType::Static, 74int, 2int)], DotNetSampleValue::CountAt(8)))
    } else if id == 80 {
        Some(("ExceptionThrown"@, seq![("ExceptionType"@, "wchar"@, LocationType::StaticUTF16String, 0int, 0int), ("ExceptionMessage"@, "wchar"@, LocationType::StaticUTF16String, 0int, 0int), ("EIPCodeThrow"@, "u64"@, LocationType::Static, 0int, 8int), ("ExceptionHR"@, "u32"@, LocationType::Static, 0int, 4int), ("ExceptionFlags"@, "u16"@, LocationType::Static, 0int, 2int), ("ClrInstanceID"@, "u16"@, LocationType::Static, 0int, 2int)], DotNetSampleValue::CountOne))
    } else if id == 81 {
        Some(("ContentionStart"@, seq![("Flags"@, "u8"@, LocationType::Static, 0int, 1int), ("ClrInstanceID"@, "u16"@, LocationType::Static, 1int, 2int)], DotNetSampleValue::CountOne))
    } else if id == 83 {
        Some(("AppDomainMemAllocated"@, seq![("AppDomainID"@, "u64"@, LocationType::Static, 0int, 8int), ("Allocated"@, "u64"@, LocationType::Static, 8int, 8int), ("ClrInstanceID"@, "u16"@, LocationType::Static, 16int, 2int)], DotNetSampleValue::BytesAt(8)))
    } else if id == 84 {
        Some(("AppDomainMemSurvived"@, seq![("AppDomainID"@, "u64"@, LocationType::Static, 0int, 8int), ("Survived"@, "u64"@, LocationType::Static, 8int, 8int), ("ProcessSurvived"@, "u64"@, LocationType::Static, 16int, 8int), ("ClrInstanceID"@, "u16"@, LocationType::Static, 24int, 2int)], DotNetSampleValue::BytesAt(8)))
    } else if id == 85 {
        Some(("ThreadCreated"@, seq![("ThreadID"@, "u64"@, LocationType::Static, 0int, 8int), ("AppDomainID"@, "u64"@, LocationType::Static, 8int, 8int), ("Flags"@, "u32"@, LocationType::Static, 16int, 4int), ("ManagedThreadIndex"@, "u32"@, LocationType::Static, 20int, 4int), ("OSThreadID"@, "u32"@, LocationType::Static, 24int, 4int), ("ClrInstanceID"@, "u16"@, LocationType::Static, 28int, 2int)], DotNetSampleValue::CountOne))
    } else if id == 86 {
        Some(("ThreadTerminated"@, seq![("ThreadID"@, "u64"@, LocationType::Static, 0int, 8int), ("AppDomainID"@, "u64"@, LocationType::Static, 8int, 8int), ("ClrInstanceID"@, "u16"@, LocationType::Static, 16int, 2int)], DotNetSampleValue::CountOne))
    } else if id == 87 {
        Some(("ThreadAppDomainEnter"@, seq![("ThreadID"@, "u64"@, LocationType::Static, 0int, 8int), ("AppDomainID"@, "u64"@, LocationType::Static, 8int, 8int), ("ClrInstanceID"@, "u16"@, LocationType::Static, 16int, 2int)], DotNetSampleValue::CountOne))
    } else if id == 91 {
        Some(("ContentionStop"@, seq![("Flags"@, "u8"@, LocationType::Static, 0int, 1int), ("ClrInstanceID"@, "u16"@, LocationType::Static, 1int, 2int)], DotNetSampleValue::CountOne))
    } else {
        None
    }
}

/// The payload field a runtime event's sample value is read from, named
/// after what the sample measures: the bytes allocated or surviving, the
/// thread count, or the thread pool's throughput; `None` for the events
/// whose sample is a count of one per event.
pub open spec fn sample_field_name(id: u16) -> Option<Seq<char>> {
    if id == 10 {
        Some("AllocationAmount64"@)
    } else if id == 83 {
        Some("Allocated"@)
    } else if id == 84 {
        Some("Survived"@)
    } else if 44 <= id <= 47 {
        Some("Count"@)
    } else if id == 54 || id == 56 {
        Some("Throughput"@)
    } else if id == 55 {
        Some("AverageThroughput"@)
    } else {
        None
    }
}

/// Whether one of the fields has the name, type, offset and size given.
pub open spec fn has_field_at(fields: Seq<FieldSpec>, name: Seq<char>, ty: Seq<char>, offset: int, size: int) -> bool {
    exists|j: int| 0 <= j < fields.len() && (#[trigger] fields[j]).0 == name && fields[j].1 == ty && fields[j].3 == offset
        && fields[j].4 == size
}

/// A runtime event's sample is read from the field it is named after, in
/// the event's own format: a byte amount from that `u64` field (for
/// `AppDomainMemAllocated` the field `Allocated`), a count from the eight
/// bytes at that field's offset; every other event counts one.
pub proof fn lemma_sample_reads_its_field(id: u16)
    ensures
        match runtime_schema(id) {
            Some(sc) => match sc.2 {
                DotNetSampleValue::BytesAt(o) => sample_field_name(id) matches Some(n) && has_field_at(
                    sc.1,
                    n,
                    "u64"@,
                    o as int,
                    8,
                ),
                DotNetSampleValue::CountAt(o) => sample_field_name(id) matches Some(n) && (has_field_at(
                    sc.1,
                    n,
                    "u64"@,
                    o as int,
                    8,
                ) || has_field_at(sc.1, n, "double"@, o as int, 8)),
                DotNetSampleValue::CountOne => sample_field_name(id) is None,
            },
            None => true,
        },
{
    if let Some(sc) = runtime_schema(id) {
        let fs = sc.1;
        if id == 10 {
            assert(fs[3].0 == "AllocationAmount64"@);
        } else if id == 83 || id == 84 {
            assert(fs[1].3 == 8);
        } else if 44 <= id <= 47 || id == 54 || id == 55 {
            assert(fs[0].3 == 0);
        } else if id == 56 {
            assert(fs[1].0 == "Throughput"@);
        }
    }
}

/// The name, format and sample value of a runtime event the scenarios
/// know; `None` for any other id.
#[verifier::rlimit(50)]
pub fn runtime_event_format(id: u16) -> (r: Option<(String, EventFormat, DotNetSampleValue)>)
    ensures
        match runtime_schema(id) {
            Some(sc) => r matches Some(t) && t.0@ == sc.0 && fields_match(t.1.spec_fields(), sc.1) && t.2 == sc.2,
            None => r is None,
        },
{
    let mut f = EventFormat::new();
    match id {
        1 => {
            push_field(&mut f, "Count", "u32", LocationType::Static, 0, 4);
            push_field(&mut f, "Depth", "u32", LocationType::Static, 4, 4);
            push_field(&mut f, "Reason", "u32", LocationType::Static, 8, 4);
            push_field(&mut f, "Type", "u32", LocationType::Static, 12, 4);
            push_field(&mut f, "ClrInstanceID", "u16", LocationType::Static, 16, 2);
            Some(("GCStart".to_owned(), f, DotNetSampleValue::CountOne))
        },
        2 => {
            push_field(&mut f, "Count", "u32", LocationType::Static, 0, 4);
            push_field(&mut f, "Depth", "u32", LocationType::Static, 4, 4);
            push_field(&mut f, "ClrInstanceID", "u16", LocationType::Static, 8, 2);
            Some(("GCEnd".to_owned(), f, DotNetSampleValue::CountOne))
        },
        3 => {
            Some(("GCRestartEEEnd".to_owned(), f, DotNetSampleValue::CountOne))
        },
        4 => {
            push_field(&mut f, "GenerationSize0", "u64", LocationType::Static, 0, 8);
            push_field(&mut f, "TotalPromotedSize0", "u64", LocationType::Static, 8, 8);
            push_field(&mut f, "GenerationSize1", "u64", LocationType::Static, 16, 8);
            push_field(&mut f, "TotalPromotedSize1", "u64", LocationType::Static, 24, 8);
            push_field(&mut f, "GenerationSize2", "u64", LocationType::Static, 32, 8);
            push_field(&mut f, "TotalPromotedSize2", "u64", LocationType::Static, 40, 8);
            push_field(&mut f, "GenerationSize3", "u64", LocationType::Static, 48, 8);
            push_field(&mut f, "TotalPromotedSize3", "u64", LocationType::Static, 56, 8);
            push_field(&mut f, "FinalizationPromotedSize", "u64", LocationType::Static, 64, 8);
            push_field(&mut f, "FinalizationPromotedCount", "u64", LocationType::Static, 72, 8);
            push_field(&mut f, "PinnedObjectCount", "u32", LocationType::Static, 80, 4);
            push_field(&mut f, "SinkBlockCount", "u32", LocationType::Static, 84, 4);
            push_field(&mut f, "GCHandleCount", "u32", LocationType::Static, 88, 4);
            push_field(&mut f, "ClrInstanceID", "u16", LocationType::Static, 92, 2);
            push_field(&mut f, "GenerationSize4", "u64", LocationType::Static, 94, 8);
            push_field(&mut f, "TotalPromotedSize4", "u64", LocationType::Static, 102, 8);
            Some(("GCHeapStats".to_owned(), f, DotNetSampleValue::CountOne))
        },
        5 => {
            push_field(&mut f, "Address", "u64", LocationType::Static, 0, 8);
            push_field(&mut f, "Size", "u64", LocationType::Static, 8, 8);
            push_field(&mut f, "Type", "u32", LocationType::Static, 16, 4);
            push_field(&mut f, "ClrInstanceID", "u16", LocationType::Static, 20, 2);
            Some(("GCCreateSegment".to_owned(), f, DotNetSampleValue::CountOne))
        },
        6 => {
            push_field(&mut f, "Address", "u64", LocationType::Static, 0, 8);
            push_field(&mut f, "ClrInstanceID", "u16", LocationType::Static, 8, 2);
            Some(("GCFreeSegment".to_owned(), f, DotNetSampleValue::CountOne))
        },
        7 => {
            Some(("GCRestartEEBegin".to_owned(), f, DotNetSampleValue::CountOne))
        },
        8 => {
            Some(("GCSuspendEEEnd".to_owned(), f, DotNetSampleValue::CountOne))
        },
        9 => {
            push_field(&mut f, "Reason", "u16", LocationType::Static, 0, 2);
            push_field(&mut f, "Count", "u32", LocationType::Static, 2, 4);
            push_field(&mut f, "ClrInstanceID", "u16", LocationType::Static, 6, 2);
            Some(("GCSuspendEE".to_owned(), f, DotNetSampleValue::CountOne))
        },
        10 => {
            push_field(&mut f, "AllocationAmount", "u32", LocationType::Static, 0, 4);
            push_field(&mut f, "AllocationKind", "u32", LocationType::Static, 4, 4);
            push_field(&mut f, "ClrInstanceID", "u16", LocationType::Static, 8, 2);
            push_field(&mut f, "AllocationAmount64", "u64", LocationType::Static, 10, 8);
            push_field(&mut f, "TypeId", "u64", LocationType::Static, 18, 8);
            push_field(&mut f, "TypeName", "wchar", LocationType::StaticUTF16String, 26, 0);
            push_field(&mut f, "HeapIndex", "u32", LocationType::Static, 26, 4);
            push_field(&mut f, "Address", "u64", LocationType::Static, 26, 8);
            Some(("GCAllocationTick".to_owned(), f, DotNetSampleValue::BytesAt(10)))
        },
        11 => {
            Some(("GCCreateConcurrentThread".to_owned(), f, DotNetSampleValue::CountOne))
        },
        12 => {
            Some(("GCTerminateConcurrentThread".to_owned(), f, DotNetSampleValue::CountOne))
        },
        13 => {
            push_field(&mut f, "Count", "u32", LocationType::Static, 0, 4);
            push_field(&mut f, "ClrInstanceID", "u16", LocationType::Static, 4, 2);
            Some(("GCFinalizersEnd".to_owned(), f, DotNetSampleValue::CountOne))
        },
        14 => {
            Some(("GCFinalizersBegin".to_owned(), f, DotNetSampleValue::CountOne))
        },
        44 => {
            push_field(&mut f, "Count", "u64", LocationType::Static, 0, 8);
            push_field(&mut f, "NumRetired", "u64", LocationType::Static, 8, 8);
            push_field(&mut f, "ClrInstanceID", "u16", LocationType::Static, 16, 2);
            Some(("IOThreadCreate".to_owned(), f, DotNetSampleValue::CountAt(0)))
        },
        45 => {
            push_field(&mut f, "Count", "u64", LocationType::Static, 0, 8);
            push_field(&mut f, "NumRetired", "u64", LocationType::Static, 8, 8);
            push_field(&mut f, "ClrInstanceID", "u16", LocationType::Static, 16, 2);
            Some(("IOThreadTerminate".to_owned(), f, DotNetSampleValue::CountAt(0)))
        },
        46 => {
            push_field(&mut f, "Count", "u64", LocationType::Static, 0, 8);
            push_field(&mut f, "NumRetired", "u64", LocationType::Static, 8, 8);
            push_field(&mut f, "ClrInstanceID", "u16", LocationType::Static, 16, 2);
            Some(("IOThreadRetire".to_owned(), f, DotNetSampleValue::CountAt(0)))
        },
        47 => {
            push_field(&mut f, "Count", "u64", LocationType::Static, 0, 8);
            push_field(&mut f, "NumRetired", "u64", LocationType::Static, 8, 8);
            push_field(&mut f, "ClrInstanceID", "u16", LocationType::Static, 16, 2);
            Some(("IOThreadUnretire".to_owned(), f, DotNetSampleValue::CountAt(0)))
        },
        50 => {
            push_field(&mut f, "ActiveWorkerThreadCount", "u32", LocationType::Static, 0, 4);
            push_field(&mut f, "RetiredWorkerThreadCount", "u32", LocationType::Static, 4, 4);
            push_field(&mut f, "ClrInstanceID", "u16", LocationType::Static, 8, 2);
            Some(("ThreadPoolWorkerThreadStart".to_owned(), f, DotNetSampleValue::CountOne))
        },
        51 => {
            push_field(&mut f, "ActiveWorkerThreadCount", "u32", LocationType::Static, 0, 4);
            push_field(&mut f, "RetiredWorkerThreadCount", "u32", LocationType::Static, 4, 4);
            push_field(&mut f, "ClrInstanceID", "u16", LocationType::Static, 8, 2);
            Some(("ThreadPoolWorkerThreadStop".to_owned(), f, DotNetSampleValue::CountOne))
        },
        52 => {
            push_field(&mut f, "ActiveWorkerThreadCount", "u32", LocationType::Static, 0, 4);
            push_field(&mut f, "RetiredWorkerThreadCount", "u32", LocationType::Static, 4, 4);
            push_field(&mut f, "ClrInstanceID", "u16", LocationType::Static, 8, 2);
            Some(("ThreadPoolWorkerThreadRetirementStart".to_owned(), f, DotNetSampleValue::CountOne))
        },
        53 => {
            push_field(&mut f, "ActiveWorkerThreadCount", "u32", LocationType::Static, 0, 4);
            push_field(&mut f, "RetiredWorkerThreadCount", "u32", LocationType::Static, 4, 4);
            push_field(&mut f, "ClrInstanceID", "u16", LocationType::Static, 8, 2);
            Some(("ThreadPoolWorkerThreadRetirementStop".to_owned(), f, DotNetSampleValue::CountOne))
        },
        54 => {
            push_field(&mut f, "Throughput", "double", LocationType::Static, 0, 8);
            push_field(&mut f, "ClrInstanceID", "u16", LocationType::Static, 8, 2);
            Some(("ThreadPoolWorkerThreadAdjustmentSample".to_owned(), f, DotNetSampleValue::CountAt(0)))
        },
        55 => {
            push_field(&mut f, "AverageThroughput", "double", LocationType::Static, 0, 8);
            push_field(&mut f, "NewWorkerThreadCount", "u32", LocationType::Static, 8, 4);
            push_field(&mut f, "Reason", "u32", LocationType::Static, 12, 4);
            push_field(&mut f, "ClrInstanceID", "u16", LocationType::Static, 16, 2);
            Some(("ThreadPoolWorkerThreadAdjustmentAdjustment".to_owned(), f, DotNetSampleValue::CountAt(0)))
        },
        56 => {
            push_field(&mut f, "Duration", "double", LocationType::Static, 0, 8);
            push_field(&mut f, "Throughput", "double", LocationType::Static, 8, 8);
            push_field(&mut f, "ThreadWave", "double", LocationType::Static, 16, 8);
            push_field(&mut f, "ThroughputWave", "double", LocationType::Static, 24, 8);
            push_field(&mut f, "ThroughputErrorEstimate", "double", LocationType::Static, 32, 8);
            push_field(&mut f, "AverageThroughputErrorEstimate", "double", LocationType::Static, 40, 8);
            push_field(&mut f, "ThroughputRatio", "double", LocationType::Static, 48, 8);
            push_field(&mut f, "Confidence", "double", LocationType::Static, 56, 8);
            push_field(&mut f, "NewControlSetting", "double", LocationType::Static, 64, 8);
            push_field(&mut f, "NewThreadWaveMagnitude", "u16", LocationType::Static, 72, 2);
            push_field(&mut f, "ClrInstanceID", "u16", LocationType::Static, 74, 2);
            Some(("ThreadPoolWorkerThreadAdjustmentStats".to_owned(), f, DotNetSampleValue::CountAt(8)))
        },
        80 => {
            push_field(&mut f, "ExceptionType", "wchar", LocationType::StaticUTF16String, 0, 0);
            push_field(&mut f, "ExceptionMessage", "wchar", LocationType::StaticUTF16String, 0, 0);
            push_field(&mut f, "EIPCodeThrow", "u64", LocationType::Static, 0, 8);
            push_field(&mut f, "ExceptionHR", "u32", LocationType::Static, 0, 4);
            push_field(&mut f, "ExceptionFlags", "u16", LocationType::Static, 0, 2);
            push_field(&mut f, "ClrInstanceID", "u16", LocationType::Static, 0, 2);
            Some(("ExceptionThrown".to_owned(), f, DotNetSampleValue::CountOne))
        },
        81 => {
            push_field(&mut f, "Flags", "u8", LocationType::Static, 0, 1);
            push_field(&mut f, "ClrInstanceID", "u16", LocationType::Static, 1, 2);
            Some(("ContentionStart".to_owned(), f, DotNetSampleValue::CountOne))
        },
        83 => {
            push_field(&mut f, "AppDomainID", "u64", LocationType::Static, 0, 8);
            push_field(&mut f, "Allocated", "u64", LocationType::Static, 8, 8);
            push_field(&mut f, "ClrInstanceID", "u16", LocationType::Static, 16, 2);
            Some(("AppDomainMemAllocated".to_owned(), f, DotNetSampleValue::BytesAt(8)))
        },
        84 => {
            push_field(&mut f, "AppDomainID", "u64", LocationType::Static, 0, 8);
            push_field(&mut f, "Survived", "u64", LocationType::Static, 8, 8);
            push_field(&mut f, "ProcessSurvived", "u64", LocationType::Static, 16, 8);
            push_field(&mut f, "ClrInstanceID", "u16", LocationType::Static, 24, 2);
            Some(("AppDomainMemSurvived".to_owned(), f, DotNetSampleValue::BytesAt(8)))
        },
        85 => {
            push_field(&mut f, "ThreadID", "u64", LocationType::Static, 0, 8);
            push_field(&mut f, "AppDomainID", "u64", LocationType::Static, 8, 8);
            push_field(&mut f, "Flags", "u32", LocationType::Static, 16, 4);
            push_field(&mut f, "ManagedThreadIndex", "u32", LocationType::Static, 20, 4);
            push_field(&mut f, "OSThreadID", "u32", LocationType::Static, 24, 4);
            push_field(&mut f, "ClrInstanceID", "u16", LocationType::Static, 28, 2);
            Some(("ThreadCreated".to_owned(), f, DotNetSampleValue::CountOne))
        },
        86 => {
            push_field(&mut f, "ThreadID", "u64", LocationType::Static, 0, 8);
            push_field(&mut f, "AppDomainID", "u64", LocationType::Static, 8, 8);
            push_field(&mut f, "ClrInstanceID", "u16", LocationType::Static, 16, 2);
            Some(("ThreadTerminated".to_owned(), f, DotNetSampleValue::CountOne))
        },
        87 => {
            push_field(&mut f, "ThreadID", "u64", LocationType::Static, 0, 8);
            push_field(&mut f, "AppDomainID", "u64", LocationType::Static, 8, 8);
            push_field(&mut f, "ClrInstanceID", "u16", LocationType::Static, 16, 2);
            Some(("ThreadAppDomainEnter".to_owned(), f, DotNetSampleValue::CountOne))
        },
        91 => {
            push_field(&mut f, "Flags", "u8", LocationType::Static, 0, 1);
            push_field(&mut f, "ClrInstanceID", "u16", LocationType::Static, 1, 2);
            Some(("ContentionStop".to_owned(), f, DotNetSampleValue::CountOne))
        },
        _ => None,
    }
}

/// The events among `events` that have a schema, in order.
pub open spec fn known_runtime_events(events: Seq<(u16, u64, u8)>) -> Seq<(u16, u64, u8)>
    decreases events.len(),
{
    if events.len() == 0 {
        Seq::empty()
    } else {
        let rest = known_runtime_events(events.drop_last());
        if runtime_schema(events.last().0) is Some {
            rest.push(events.last())
        } else {
            rest
        }
    }
}

/// Whether a sample is the one the scenario gives for a runtime event.
pub open spec fn sample_of(s: DotNetSample, event: (u16, u64, u8), record: bool, callstacks: bool) -> bool {
    let sc = runtime_schema(event.0)->0;
    &&& s.spec_id() == event.0
    &&& s.spec_name() == sc.0
    &&& fields_match(s.spec_format().spec_fields(), sc.1)
    &&& s.spec_value() == sc.2
    &&& s.spec_record() == record
    &&& s.spec_no_callstack() == !callstacks
}

impl DotNetScenario {
    /// Adds the exception thrown event.
    pub fn with_exceptions(&mut self)
        requires
            old(self).wf(),
        ensures
            final(self).wf(),
            final(self).spec_runtime()@.0 == old(self).spec_runtime()@.0.push((80u16, 0x8000u64, 2u8)),
            final(self).spec_record() == old(self).spec_record(),
            final(self).spec_callstacks() == old(self).spec_callstacks(),
    {
        self.runtime.add(DotNetEvent::new(80, 0x8000, 2));
    }

    /// Adds the garbage collection start and end events.
    pub fn with_gc_times(&mut self)
        requires
            old(self).wf(),
        ensures
            final(self).wf(),
            final(self).spec_runtime()@.0 == old(self).spec_runtime()@.0.push((1u16, 0x1u64, 4u8)).push((2u16, 0x1u64, 4u8)),
            final(self).spec_record() == old(self).spec_record(),
            final(self).spec_callstacks() == old(self).spec_callstacks(),
    {
        self.runtime.add(DotNetEvent::new(1, 0x1, 4));
        self.runtime.add(DotNetEvent::new(2, 0x1, 4));
    }

    /// Adds the heap statistics event.
    pub fn with_gc_stats(&mut self)
        requires
            old(self).wf(),
        ensures
            final(self).wf(),
            final(self).spec_runtime()@.0 == old(self).spec_runtime()@.0.push((4u16, 0x1u64, 4u8)),
            final(self).spec_record() == old(self).spec_record(),
            final(self).spec_callstacks() == old(self).spec_callstacks(),
    {
        self.runtime.add(DotNetEvent::new(4, 0x1, 4));
    }

    /// Adds the allocation tick event (verbose).
    pub fn with_gc_allocs(&mut self)
        requires
            old(self).wf(),
        ensures
            final(self).wf(),
            final(self).spec_runtime()@.0 == old(self).spec_runtime()@.0.push((10u16, 0x1u64, 5u8)),
            final(self).spec_record() == old(self).spec_record(),
            final(self).spec_callstacks() == old(self).spec_callstacks(),
    {
        self.runtime.add(DotNetEvent::new(10, 0x1, 5));
    }

    /// Adds the segment create and free events.
    pub fn with_gc_segments(&mut self)
        requires
            old(self).wf(),
        ensures
            final(self).wf(),
            final(self).spec_runtime()@.0 == old(self).spec_runtime()@.0.push((5u16, 0x1u64, 4u8)).push((6u16, 0x1u64, 4u8)),
            final(self).spec_record() == old(self).spec_record(),
            final(self).spec_callstacks() == old(self).spec_callstacks(),
    {
        self.runtime.add(DotNetEvent::new(5, 0x1, 4));
        self.runtime.add(DotNetEvent::new(6, 0x1, 4));
    }

    /// Adds the concurrent thread create and terminate events.
    pub fn with_gc_concurrent_threads(&mut self)
        requires
            old(self).wf(),
        ensures
            final(self).wf(),
            final(self).spec_runtime()@.0 == old(self).spec_runtime()@.0.push((11u16, 0x1u64, 4u8)).push((12u16, 0x1u64, 4u8)),
            final(self).spec_record() == old(self).spec_record(),
            final(self).spec_callstacks() == old(self).spec_callstacks(),
    {
        self.runtime.add(DotNetEvent::new(11, 0x1, 4));
        self.runtime.add(DotNetEvent::new(12, 0x1, 4));
    }

    /// Adds the finalizers begin and end events.
    pub fn with_gc_finalizers(&mut self)
        requires
            old(self).wf(),
        ensures
            final(self).wf(),
            final(self).spec_runtime()@.0 == old(self).spec_runtime()@.0.push((14u16, 0x1u64, 4u8)).push((13u16, 0x1u64, 4u8)),
            final(self).spec_record() == old(self).spec_record(),
            final(self).spec_callstacks() == old(self).spec_callstacks(),
    {
        self.runtime.add(DotNetEvent::new(14, 0x1, 4));
        self.runtime.add(DotNetEvent::new(13, 0x1, 4));
    }

    /// Adds the execution engine suspend and suspend-end events.
    pub fn with_gc_suspends(&mut self)
        requires
            old(self).wf(),
        ensures
            final(self).wf(),
            final(self).spec_runtime()@.0 == old(self).spec_runtime()@.0.push((9u16, 0x1u64, 4u8)).push((8u16, 0x1u64, 4u8)),
            final(self).spec_record() == old(self).spec_record(),
            final(self).spec_callstacks() == old(self).spec_callstacks(),
    {
        self.runtime.add(DotNetEvent::new(9, 0x1, 4));
        self.runtime.add(DotNetEvent::new(8, 0x1, 4));
    }

    /// Adds the execution engine restart begin and end events.
    pub fn with_gc_restarts(&mut self)
        requires
            old(self).wf(),
        ensures
            final(self).wf(),
            final(self).spec_runtime()@.0 == old(self).spec_runtime()@.0.push((7u16, 0x1u64, 4u8)).push((3u16, 0x1u64, 4u8)),
            final(self).spec_record() == old(self).spec_record(),
            final(self).spec_callstacks() == old(self).spec_callstacks(),
    {
        self.runtime.add(DotNetEvent::new(7, 0x1, 4));
        self.runtime.add(DotNetEvent::new(3, 0x1, 4));
    }

    /// Adds the contention start and stop events.
    pub fn with_contentions(&mut self)
        requires
            old(self).wf(),
        ensures
            final(self).wf(),
            final(self).spec_runtime()@.0 == old(self).spec_runtime()@.0.push((81u16, 0x4000u64, 4u8)).push((91u16, 0x4000u64, 4u8)),
            final(self).spec_record() == old(self).spec_record(),
            final(self).spec_callstacks() == old(self).spec_callstacks(),
    {
        self.runtime.add(DotNetEvent::new(81, 0x4000, 4));
        self.runtime.add(DotNetEvent::new(91, 0x4000, 4));
    }

    /// Adds the thread pool worker start, stop and retirement events.
    pub fn with_tp_worker_threads(&mut self)
        requires
            old(self).wf(),
        ensures
            final(self).wf(),
            final(self).spec_runtime()@.0 == old(self).spec_runtime()@.0.push((50u16, 0x10000u64, 4u8)).push((51u16, 0x10000u64, 4u8)).push((52u16, 0x10000u64, 4u8)).push((53u16, 0x10000u64, 4u8)),
            final(self).spec_record() == old(self).spec_record(),
            final(self).spec_callstacks() == old(self).spec_callstacks(),
    {
        self.runtime.add(DotNetEvent::new(50, 0x10000, 4));
        self.runtime.add(DotNetEvent::new(51, 0x10000, 4));
        self.runtime.add(DotNetEvent::new(52, 0x10000, 4));
        self.runtime.add(DotNetEvent::new(53, 0x10000, 4));
    }

    /// Adds the thread pool adjustment sample, adjustment and stats events.
    pub fn with_tp_worker_thread_adjustments(&mut self)
        requires
            old(self).wf(),
        ensures
            final(self).wf(),
            final(self).spec_runtime()@.0 == old(self).spec_runtime()@.0.push((54u16, 0x10000u64, 4u8)).push((55u16, 0x10000u64, 4u8)).push((56u16, 0x10000u64, 4u8)),
            final(self).spec_record() == old(self).spec_record(),
            final(self).spec_callstacks() == old(self).spec_callstacks(),
    {
        self.runtime.add(DotNetEvent::new(54, 0x10000, 4));
        self.runtime.add(DotNetEvent::new(55, 0x10000, 4));
        self.runtime.add(DotNetEvent::new(56, 0x10000, 4));
    }

    /// Adds the I/O thread retire, unretire and terminate events.
    pub fn with_tp_io_threads(&mut self)
        requires
            old(self).wf(),
        ensures
            final(self).wf(),
            final(self).spec_runtime()@.0 == old(self).spec_runtime()@.0.push((46u16, 0x10000u64, 4u8)).push((47u16, 0x10000u64, 4u8)).push((45u16, 0x10000u64, 4u8)),
            final(self).spec_record() == old(self).spec_record(),
            final(self).spec_callstacks() == old(self).spec_callstacks(),
    {
        self.runtime.add(DotNetEvent::new(46, 0x10000, 4));
        self.runtime.add(DotNetEvent::new(47, 0x10000, 4));
        self.runtime.add(DotNetEvent::new(45, 0x10000, 4));
    }

    /// Adds the thread created, terminated and app domain enter events.
    pub fn with_arm_threads(&mut self)
        requires
            old(self).wf(),
        ensures
            final(self).wf(),
            final(self).spec_runtime()@.0 == old(self).spec_runtime()@.0.push((85u16, 0x10800u64, 4u8)).push((86u16, 0x10800u64, 4u8)).push((87u16, 0x10800u64, 4u8)),
            final(self).spec_record() == old(self).spec_record(),
            final(self).spec_callstacks() == old(self).spec_callstacks(),
    {
        self.runtime.add(DotNetEvent::new(85, 0x10800, 4));
        self.runtime.add(DotNetEvent::new(86, 0x10800, 4));
        self.runtime.add(DotNetEvent::new(87, 0x10800, 4));
    }

    /// Adds the app domain memory allocated and survived events.
    pub fn with_arm_allocs(&mut self)
        requires
            old(self).wf(),
        ensures
            final(self).wf(),
            final(self).spec_runtime()@.0 == old(self).spec_runtime()@.0.push((83u16, 0x800u64, 4u8)).push((84u16, 0x800u64, 4u8)),
            final(self).spec_record() == old(self).spec_record(),
            final(self).spec_callstacks() == old(self).spec_callstacks(),
    {
        self.runtime.add(DotNetEvent::new(83, 0x800, 4));
        self.runtime.add(DotNetEvent::new(84, 0x800, 4));
    }

    /// The samples of the scenario's runtime events that have a schema, in
    /// order: each with its schema, the scenario's record flag, and without
    /// callstacks unless the scenario takes them.
    pub fn add_runtime_samples(&self) -> (samples: Vec<DotNetSample>)
        ensures
            samples@.len() == known_runtime_events(self.spec_runtime()@.0).len(),
            forall|k: int| 0 <= k < samples@.len() ==> #[trigger] sample_of(
                samples@[k],
                known_runtime_events(self.spec_runtime()@.0)[k],
                self.spec_record(),
                self.spec_callstacks(),
            ),
    {
        let events = self.runtime.events();
        let ghost all = self.spec_runtime()@.0;
        let mut samples: Vec<DotNetSample> = Vec::new();
        let mut i: usize = 0;
        while i < events.len()
            invariant
                i <= events@.len(),
                events@.map_values(|x: DotNetEvent| x@) == all,
                samples@.len() == known_runtime_events(all.take(i as int)).len(),
                forall|k: int| 0 <= k < samples@.len() ==> #[trigger] sample_of(
                    samples@[k],
                    known_runtime_events(all.take(i as int))[k],
                    self.spec_record(),
                    self.spec_callstacks(),
                ),
            decreases events@.len() - i,
        {
            let id = events[i].id();
            assert(all[i as int] == events@[i as int]@);
            assert(all.take(i + 1).drop_last() =~= all.take(i as int));
            match runtime_event_format(id) {
                Some((name, format, value)) => {
                    samples.push(DotNetSample {
                        id,
                        name,
                        format,
                        value,
                        record: self.record,
                        no_callstack: !self.callstacks,
                    });
                },
                None => {},
            }
            i = i + 1;
        }
        assert(all.take(events@.len() as int) =~= all);
        samples
    }
}

/// The registrations a factory gets for runtime samples: under each
/// sample's .NET id, its event's id, with the runtime's keyword and level.
pub open spec fn runtime_registrations(list: Seq<(Event, DotNetSample)>, keyword: u64, level: u8) -> Seq<(usize, usize, u64, u8)> {
    list.map_values(|p: (Event, DotNetSample)| (p.1.spec_id() as usize, p.0.spec_id(), keyword, level))
}

impl DotNetScenario {
    /// The scenario's runtime samples (see `add_runtime_samples`), each
    /// with its event, made through the factory for the runtime provider
    /// with the runtime's keyword and level, and given the sample's
    /// format. An error when the factory's proxy gives no event for one of
    /// them; the events made before it stay registered.
    pub fn register_runtime_samples<F: FnMut(String) -> Option<Event>>(
        &self,
        factory: &mut OSDotNetEventFactory<F>,
    ) -> (r: Result<Vec<(Event, DotNetSample)>, DotNetFactoryError>)
        requires
            forall|n: String| #[trigger] call_requires(old(factory).spec_proxy(), (n,)),
        ensures
            final(factory).spec_proxy() == old(factory).spec_proxy(),
            r matches Ok(list) ==> {
                &&& list@.len() == known_runtime_events(self.spec_runtime()@.0).len()
                &&& forall|k: int| 0 <= k < list@.len() ==> #[trigger] sample_of(
                    list@[k].1,
                    known_runtime_events(self.spec_runtime()@.0)[k],
                    self.spec_record(),
                    self.spec_callstacks(),
                ) && fields_match(
                    list@[k].0.spec_format().spec_fields(),
                    (runtime_schema(list@[k].1.spec_id())->0).1,
                )
                &&& provider_events(final(factory).spec_providers(), "Microsoft-Windows-DotNETRuntime"@)
                    == provider_events(old(factory).spec_providers(), "Microsoft-Windows-DotNETRuntime"@)
                    + runtime_registrations(list@, self.spec_runtime()@.1, self.spec_runtime()@.2)
            },
            r matches Err(e) ==> e == DotNetFactoryError::ProxyFailed,
    {
        let provider = "Microsoft-Windows-DotNETRuntime";
        proof {
            reveal_strlit("Microsoft-Windows-DotNETRuntime");
        }
        let keyword = self.runtime.keyword();
        let level = self.runtime.level();
        let events = self.runtime.events();
        let ghost all = self.spec_runtime()@.0;
        let ghost start = provider_events(factory.spec_providers(), provider@);
        let mut list: Vec<(Event, DotNetSample)> = Vec::new();
        let mut i: usize = 0;
        while i < events.len()
            invariant
                i <= events@.len(),
                events@.map_values(|x: DotNetEvent| x@) == all,
                all == self.spec_runtime()@.0,
                keyword == self.spec_runtime()@.1,
                level == self.spec_runtime()@.2,
                provider@ == "Microsoft-Windows-DotNETRuntime"@,
                factory.spec_proxy() == old(factory).spec_proxy(),
                forall|n: String| #[trigger] call_requires(old(factory).spec_proxy(), (n,)),
                start == provider_events(old(factory).spec_providers(), provider@),
                list@.len() == known_runtime_events(all.take(i as int)).len(),
                forall|k: int| 0 <= k < list@.len() ==> #[trigger] sample_of(
                    list@[k].1,
                    known_runtime_events(all.take(i as int))[k],
                    self.spec_record(),
                    self.spec_callstacks(),
                ),
                forall|k: int| 0 <= k < list@.len() ==> fields_match(
                    (#[trigger] list@[k]).0.spec_format().spec_fields(),
                    (runtime_schema(list@[k].1.spec_id())->0).1,
                ),
                provider_events(factory.spec_providers(), provider@) == start + runtime_registrations(
                    list@,
                    keyword,
                    level,
                ),
            decreases events@.len() - i,
        {
            let id = events[i].id();
            assert(all[i as int] == events@[i as int]@);
            assert(all.take(i + 1).drop_last() =~= all.take(i as int));
            match runtime_event_format(id) {
                Some((name, format, value)) => {
                    let ghost before = list@;
                    let mut event = match factory.new_event(provider, keyword, level, id as usize, name.clone()) {
                        Ok(e) => e,
                        Err(e) => {
                            return Err(e);
                        },
                    };
                    let ghost eid = event.spec_id();
                    match runtime_event_format(id) {
                        Some((_, event_format, _)) => {
                            *event.format_mut() = event_format;
                        },
                        None => {},
                    }
                    let sample = DotNetSample {
                        id,
                        name,
                        format,
                        value,
                        record: self.record,
                        no_callstack: !self.callstacks,
                    };
                    list.push((event, sample));
                    proof {
                        assert(known_runtime_events(all.take(i + 1)) == known_runtime_events(all.take(i as int)).push(all[i as int]));
                        assert forall|k: int| 0 <= k < list@.len() implies #[trigger] sample_of(
                            list@[k].1,
                            known_runtime_events(all.take(i + 1))[k],
                            self.spec_record(),
                            self.spec_callstacks(),
                        ) by {
                            if k < before.len() {
                                assert(list@[k] == before[k]);
                            }
                        }
                        assert forall|k: int| 0 <= k < list@.len() implies fields_match(
                            (#[trigger] list@[k]).0.spec_format().spec_fields(),
                            (runtime_schema(list@[k].1.spec_id())->0).1,
                        ) by {
                            if k < before.len() {
                                assert(list@[k] == before[k]);
                            }
                        }
                    }
                    assert(runtime_registrations(list@, keyword, level) =~= runtime_registrations(before, keyword, level).push(
                        (id as usize, eid, keyword, level),
                    ));
                },
                None => {
                    assert(known_runtime_events(all.take(i + 1)) == known_runtime_events(all.take(i as int)));
                },
            }
            i = i + 1;
        }
        assert(all.take(events@.len() as int) =~= all);
        Ok(list)
    }
}

} // verus!
