//! Host-side client library for the wire protocol of a device-debugging
//! daemon: host-command framing, the OKAY/FAIL status protocol, device
//! listing and tracking, forward/reverse port-mapping encoding, and the
//! binary sync sub-protocol for file transfer.
//!
//! The library holds the protocol logic: encoders build the exact byte
//! frames that go on the wire, and decoders are specified against spec-level
//! models of the frame grammar. Socket and file I/O live outside.

mod config;
mod device;
mod errors;
mod execution;
mod host;
mod lines;
mod mapping;
mod message;
mod phone;
mod sync;
mod text;
mod wire;

pub use config::AdbConfig;
pub use config::Gateway;
pub use config::Runner;
pub use config::Server;

pub use device::DeviceEvent;
pub use device::DeviceRecord;
pub use device::DeviceStatus;
pub use device::DeviceTracker;
pub use device::TrackState;
pub use device::device_records;
pub use device::devices_of_lines;
pub use device::events_match;
pub use device::filter_online;
pub use device::find_by_serial;
pub use device::find_last;
pub use device::is_online;
pub use device::lemma_device_record_count;
pub use device::line_device;
pub use device::line_track;
pub use device::parse_track_lines;
pub use device::track_of_lines;
pub use device::track_records;
pub use device::online_of;
pub use device::parse_device_lines;
pub use device::status_of;
pub use device::two_token_line_count;

pub use errors::AdbError;
pub use errors::CheckError;
pub use errors::CheckResult;

pub use execution::ArgsProtocol;
pub use execution::PythonArgs;
pub use execution::ResourceType;

pub use host::connect_command;
pub use host::devices_command;
pub use host::disconnect_command;
pub use host::kill_command;
pub use host::lemma_host_frame_round_trip;
pub use host::parse_framed_payload;
pub use host::parse_version_payload;
pub use host::shell_command;
pub use host::sync_command;
pub use host::transport_command;
pub use host::version_command;

pub use lines::close_tok;
pub use lines::is_line_ws;
pub use lines::lines_tokens;
pub use lines::lt_rec;
pub use lines::tokenize_lines;

pub use mapping::MappingDevice;
pub use mapping::MappingType;
pub use mapping::MappingView;
pub use mapping::check_and_push;
pub use mapping::forward_command;
pub use mapping::forward_match;
pub use mapping::lemma_listing_order_swap;
pub use mapping::lemma_mapping_round_trip;
pub use mapping::line_triple;
pub use mapping::line_triples;
pub use mapping::list_forward_command;
pub use mapping::mapping_of;
pub use mapping::mapping_render;
pub use mapping::parse_forward_list;
pub use mapping::parse_reverse_list;
pub use mapping::reverse_forward_command;
pub use mapping::reverse_list_command;
pub use mapping::reverse_match;
pub use mapping::triples_of_lines;
pub use mapping::wire_faithful;

pub use message::AdbCommand;
pub use message::AdbMessage;
pub use message::RawMessage;
pub use message::byte_sum;
pub use message::checksum_of;
pub use message::command_code;

pub use phone::Device;
pub use phone::is_dev_sep;
pub use phone::sep_end;

pub use sync::EntryRec;
pub use sync::ListOutcome;
pub use sync::RecvOutcome;
pub use sync::RemoteFileInfo;
pub use sync::SyncCommand;
pub use sync::ascii_bytes;
pub use sync::chunks_of;
pub use sync::concat_chunks;
pub use sync::data_header_bytes;
pub use sync::decode_recv_stream;
pub use sync::encode_push_chunk;
pub use sync::encode_push_stream;
pub use sync::encode_sync_request;
pub use sync::lemma_chunks_of_bounds;
pub use sync::lemma_chunks_of_concat;
pub use sync::lemma_push_pull_round_trip;
pub use sync::lemma_recv_stream_round_trip;
pub use sync::lemma_short_chunk_detected;
pub use sync::list_decode;
pub use sync::list_entries_match;
pub use sync::list_error_matches;
pub use sync::list_prepend;
pub use sync::parse_list_header;
pub use sync::parse_list_response;
pub use sync::parse_stat_response;
pub use sync::push_chunk_frame;
pub use sync::push_stream;
pub use sync::recv_decode;
pub use sync::recv_error_matches;
pub use sync::recv_prepend;
pub use sync::recv_stream_of;
pub use sync::sync_request_bytes;
pub use sync::sync_tag_bytes;

pub use text::all_digits;
pub use text::dec_parse_ok;
pub use text::dec_str;
pub use text::digit_char;
pub use text::digit_val;
pub use text::digits_val;
pub use text::is_digit_char;
pub use text::lemma_dec_round_trip;
pub use text::lemma_dec_str_digits;
pub use text::lemma_dec_str_len4;
pub use text::lemma_digits_val_nonneg;
pub use text::parse_decimal_u32;
pub use text::str_eq;
pub use text::u32_to_decimal;

pub use wire::AdbConnState;
pub use wire::all_hex;
pub use wire::append_bytes;
pub use wire::code_bytes;
pub use wire::encode_le_u32;
pub use wire::frame_command;
pub use wire::frame_payload;
pub use wire::hex4_val;
pub use wire::hex_len_bytes;
pub use wire::host_code_of;
pub use wire::host_frame;
pub use wire::le_bytes_of;
pub use wire::le_u32;
pub use wire::lemma_hex_len_round_trip;
pub use wire::lemma_le_u32_round_trip;
pub use wire::parse_hex_len;
pub use wire::parse_host_code;
pub use wire::parse_le_u32;
pub use wire::parse_sync_code;
pub use wire::require_okay;
pub use wire::sync_code_of;
