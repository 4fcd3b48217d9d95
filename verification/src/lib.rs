//! A server's side of the Kafka wire protocol: the codec of the wire types,
//! the record batches of the log, the index built from the controller's
//! metadata log, and the handlers of ApiVersions, DescribeTopicPartitions
//! and Fetch. Every function states what it computes over the mathematical
//! model of its arguments, and the statement is proved.
pub mod api_versions;
pub mod big_endian;
pub mod codec;
pub mod common_struct;
pub mod connection;
pub mod cursor;
pub mod decode;
pub mod describe_topic_partitions;
pub mod encode;
pub mod fetch;
pub mod ids;
pub mod laws;
pub mod length_prefix;
pub mod log_files;
pub mod metadata_log;
pub mod model;
pub mod record;
pub mod request_message;
pub mod response_message;
pub mod sequence;
pub mod utils;
pub mod varint;
