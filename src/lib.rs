//! Wire-protocol codec, metadata-log reader and request dispatch for a Kafka-compatible
//! broker. Every reader is stated against a parse function over bytes and every writer
//! against an encoding function; the round trips between them are proved for the
//! primitives, record batches, headers and the request and response bodies that `laws` and
//! each module's `lemma_*_round_trip` name.

/// Errors of the codec and the handlers.
pub mod error;
/// Positions in byte sequences, and fixed-width big-endian integers.
pub mod wire;
/// Unsigned varints and varlongs, and their ZigZag-signed forms.
pub mod varint;
/// Lists of values read and written one after another.
pub mod list;
/// Raw bytes, UUIDs, and the nullable and compact string forms.
pub mod types;
/// `ARRAY` and `COMPACT_ARRAY` framing.
pub mod arrays;
/// Tagged-field sets.
pub mod tagged;
/// Record batches, their records, and the CRC-32C that guards them.
pub mod record;
/// Request and response headers, and the header-version tables.
pub mod header;
/// ApiVersions: request, response and handler.
pub mod api_versions;
/// Topics, partitions and the metadata catalog.
pub mod model;
/// DescribeTopicPartitions: request, response and handler.
pub mod describe;
/// Metadata records and the catalog built from the metadata log.
pub mod metadata;
/// Fetch requests.
pub mod fetch_request;
/// Fetch responses.
pub mod fetch_response;
/// The Fetch handler.
pub mod fetch;
/// Round trips of whole Fetch messages.
pub mod fetch_laws;
/// Round trips of Fetch response parts.
pub mod fetch_response_laws;
/// Request framing, routing by api key, and response framing.
pub mod message;
/// Boundary behaviour of the codec, stated over its parse functions.
pub mod laws;
