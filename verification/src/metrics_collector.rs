//! Under which metric an operation is recorded.
use vstd::prelude::*;

use crate::checkpoint::same_text;

verus! {

/// The histogram that the duration of an operation goes into.
pub open spec fn timing_metric_of(operation: Seq<char>) -> Option<Seq<char>> {
    if operation == "archive_create"@ {
        Some("archive_create_ms"@)
    } else if operation == "archive_extract"@ {
        Some("archive_extract_ms"@)
    } else if operation == "compression"@ {
        Some("compression_ms"@)
    } else if operation == "encryption"@ {
        Some("encryption_ms"@)
    } else if operation == "decryption"@ {
        Some("decryption_ms"@)
    } else if operation == "file_read"@ {
        Some("file_read_ms"@)
    } else if operation == "file_write"@ {
        Some("file_write_ms"@)
    } else {
        None
    }
}

/// A name or nothing, as a value.
pub open spec fn name_view(name: Option<&'static str>) -> Option<Seq<char>> {
    match name {
        Some(s) => Some(s@),
        None => None,
    }
}

/// The histogram that the duration of an operation goes into, none for an
/// operation that is not known.
pub fn timing_metric(operation: &str) -> (name: Option<&'static str>)
    ensures
        name_view(name) == timing_metric_of(operation@),
{
    if same_text(operation, "archive_create") {
        Some("archive_create_ms")
    } else if same_text(operation, "archive_extract") {
        Some("archive_extract_ms")
    } else if same_text(operation, "compression") {
        Some("compression_ms")
    } else if same_text(operation, "encryption") {
        Some("encryption_ms")
    } else if same_text(operation, "decryption") {
        Some("decryption_ms")
    } else if same_text(operation, "file_read") {
        Some("file_read_ms")
    } else if same_text(operation, "file_write") {
        Some("file_write_ms")
    } else {
        None
    }
}

/// The counter for the bytes of an operation.
pub open spec fn bytes_metric_of(operation: Seq<char>) -> Option<Seq<char>> {
    if operation == "compression"@ {
        Some("compression_bytes_total"@)
    } else if operation == "encryption"@ {
        Some("encryption_bytes_total"@)
    } else if operation == "archive_write"@ {
        Some("archive_write_bytes_total"@)
    } else if operation == "archive_read"@ {
        Some("archive_read_bytes_total"@)
    } else {
        None
    }
}

/// The counter for the bytes of an operation, none for one that is not known.
pub fn bytes_metric(operation: &str) -> (name: Option<&'static str>)
    ensures
        name_view(name) == bytes_metric_of(operation@),
{
    if same_text(operation, "compression") {
        Some("compression_bytes_total")
    } else if same_text(operation, "encryption") {
        Some("encryption_bytes_total")
    } else if same_text(operation, "archive_write") {
        Some("archive_write_bytes_total")
    } else if same_text(operation, "archive_read") {
        Some("archive_read_bytes_total")
    } else {
        None
    }
}

/// The counter for the number of operations.
pub open spec fn operation_metric_of(operation: Seq<char>) -> Option<Seq<char>> {
    if operation == "file_encrypt"@ {
        Some("file_encrypt_operations_total"@)
    } else if operation == "file_decrypt"@ {
        Some("file_decrypt_operations_total"@)
    } else if operation == "chunk_process"@ {
        Some("chunk_process_operations_total"@)
    } else if operation == "archive_create"@ {
        Some("archive_create_operations_total"@)
    } else if operation == "archive_extract"@ {
        Some("archive_extract_operations_total"@)
    } else {
        None
    }
}

/// The counter for the number of operations, none for one that is not known.
pub fn operation_metric(operation: &str) -> (name: Option<&'static str>)
    ensures
        name_view(name) == operation_metric_of(operation@),
{
    if same_text(operation, "file_encrypt") {
        Some("file_encrypt_operations_total")
    } else if same_text(operation, "file_decrypt") {
        Some("file_decrypt_operations_total")
    } else if same_text(operation, "chunk_process") {
        Some("chunk_process_operations_total")
    } else if same_text(operation, "archive_create") {
        Some("archive_create_operations_total")
    } else if same_text(operation, "archive_extract") {
        Some("archive_extract_operations_total")
    } else {
        None
    }
}

/// The gauges there are.
pub open spec fn gauge_metric_of(metric: Seq<char>) -> Option<Seq<char>> {
    if metric == "active_extractions"@ || metric == "cache_size_mb"@ || metric == "queue_depth"@ {
        Some(metric)
    } else {
        None
    }
}

/// The gauge with a name, none for one that is not known.
pub fn gauge_metric(metric: &str) -> (name: Option<&'static str>)
    ensures
        name_view(name) == gauge_metric_of(metric@),
{
    if same_text(metric, "active_extractions") {
        Some("active_extractions")
    } else if same_text(metric, "cache_size_mb") {
        Some("cache_size_mb")
    } else if same_text(metric, "queue_depth") {
        Some("queue_depth")
    } else {
        None
    }
}

/// A duration goes under the name of its operation, with the unit behind it.
pub proof fn law_timings_are_named_by_operation(operation: Seq<char>)
    ensures
        timing_metric_of(operation) matches Some(m) ==> m == operation + "_ms"@,
        timing_metric_of("archive_create"@) is Some,
        timing_metric_of("archive_extract"@) is Some,
        timing_metric_of("compression"@) is Some,
        timing_metric_of("encryption"@) is Some,
        timing_metric_of("decryption"@) is Some,
        timing_metric_of("file_read"@) is Some,
        timing_metric_of("file_write"@) is Some,
{
    reveal_strlit("_ms");
    reveal_strlit("archive_create");
    reveal_strlit("archive_create_ms");
    reveal_strlit("archive_extract");
    reveal_strlit("archive_extract_ms");
    reveal_strlit("compression");
    reveal_strlit("compression_ms");
    reveal_strlit("encryption");
    reveal_strlit("encryption_ms");
    reveal_strlit("decryption");
    reveal_strlit("decryption_ms");
    reveal_strlit("file_read");
    reveal_strlit("file_read_ms");
    reveal_strlit("file_write");
    reveal_strlit("file_write_ms");
    assert("archive_create"@ + "_ms"@ =~= "archive_create_ms"@);
    assert("archive_extract"@ + "_ms"@ =~= "archive_extract_ms"@);
    assert("compression"@ + "_ms"@ =~= "compression_ms"@);
    assert("encryption"@ + "_ms"@ =~= "encryption_ms"@);
    assert("decryption"@ + "_ms"@ =~= "decryption_ms"@);
    assert("file_read"@ + "_ms"@ =~= "file_read_ms"@);
    assert("file_write"@ + "_ms"@ =~= "file_write_ms"@);
}

/// Bytes are counted under the name of their operation.
pub proof fn law_bytes_are_named_by_operation(operation: Seq<char>)
    ensures
        bytes_metric_of(operation) matches Some(m) ==> m == operation + "_bytes_total"@,
        bytes_metric_of("compression"@) is Some,
        bytes_metric_of("encryption"@) is Some,
        bytes_metric_of("archive_write"@) is Some,
        bytes_metric_of("archive_read"@) is Some,
{
    reveal_strlit("_bytes_total");
    reveal_strlit("compression");
    reveal_strlit("compression_bytes_total");
    reveal_strlit("encryption");
    reveal_strlit("encryption_bytes_total");
    reveal_strlit("archive_write");
    reveal_strlit("archive_write_bytes_total");
    reveal_strlit("archive_read");
    reveal_strlit("archive_read_bytes_total");
    assert("compression"@ + "_bytes_total"@ =~= "compression_bytes_total"@);
    assert("encryption"@ + "_bytes_total"@ =~= "encryption_bytes_total"@);
    assert("archive_write"@ + "_bytes_total"@ =~= "archive_write_bytes_total"@);
    assert("archive_read"@ + "_bytes_total"@ =~= "archive_read_bytes_total"@);
}

/// Operations are counted under their own name.
pub proof fn law_counts_are_named_by_operation(operation: Seq<char>)
    ensures
        operation_metric_of(operation) matches Some(m) ==> m == operation + "_operations_total"@,
        operation_metric_of("file_encrypt"@) is Some,
        operation_metric_of("file_decrypt"@) is Some,
        operation_metric_of("chunk_process"@) is Some,
        operation_metric_of("archive_create"@) is Some,
        operation_metric_of("archive_extract"@) is Some,
{
    reveal_strlit("_operations_total");
    reveal_strlit("file_encrypt");
    reveal_strlit("file_encrypt_operations_total");
    reveal_strlit("file_decrypt");
    reveal_strlit("file_decrypt_operations_total");
    reveal_strlit("chunk_process");
    reveal_strlit("chunk_process_operations_total");
    reveal_strlit("archive_create");
    reveal_strlit("archive_create_operations_total");
    reveal_strlit("archive_extract");
    reveal_strlit("archive_extract_operations_total");
    assert("file_encrypt"@ + "_operations_total"@ =~= "file_encrypt_operations_total"@);
    assert("file_decrypt"@ + "_operations_total"@ =~= "file_decrypt_operations_total"@);
    assert("chunk_process"@ + "_operations_total"@ =~= "chunk_process_operations_total"@);
    assert("archive_create"@ + "_operations_total"@ =~= "archive_create_operations_total"@);
    assert("archive_extract"@ + "_operations_total"@ =~= "archive_extract_operations_total"@);
}

/// A gauge has the name that it is asked for by.
pub proof fn law_gauges_keep_their_names(metric: Seq<char>)
    ensures
        gauge_metric_of(metric) matches Some(m) ==> m == metric,
        gauge_metric_of("active_extractions"@) is Some,
        gauge_metric_of("cache_size_mb"@) is Some,
        gauge_metric_of("queue_depth"@) is Some,
{
}

} // verus!
