//! Decoder for the column-oriented "Native" binary format of an analytical
//! database, and a pull-based batch cursor over the decoded columns.

pub mod block;
pub mod column_type;
pub mod cursor;
pub mod decimal;
pub mod error;
pub mod field;
pub mod folder;
pub mod remote;
pub mod stream;
pub mod text;
pub mod varuint;

pub use block::{ColumnDescriptor, CountWidth, StreamOptions, Termination};
pub use column_type::{parse_column_type, parse_enum_values, ColumnType, EnumType, EnumValue};
pub use cursor::{Batch, ClickHouseFolderInitData, ColumnView, LogicalKind, OutputKind};
pub use error::DecodeError;
pub use field::{decode_value, read_string, Value};
pub use folder::{parse_columns_file, parse_count_file, ClickHouseFolderVTab, ColumnDefinition};
pub use remote::{map_clickhouse_type, parse_cell, remote_result, RemoteCell, RemoteType};
pub use stream::{read_native_format, StreamResult};
pub use varuint::{encode_var_u64, read_var_u64};
