//! Decoder for CSA game records: the line-oriented text format that records shogi
//! games, with their starting position, moves, termination and metadata.

pub mod codes;
pub mod error;
pub mod info;
pub mod moves;
pub mod parser;
pub mod position;
pub mod reader;
pub mod shogi;
pub mod strings;

pub use codes::TryFromCsa;
pub use error::{CsaParserError, CsaStateError, CsaStreamReadError};
pub use info::KifuInfo;
pub use moves::{CsaMove, CsaMoves, CsaMovesParser, EndState};
pub use parser::{parse_statements, CsaData, CsaParser, CsaRecordBuilder};
pub use position::CsaPositionParser;
pub use reader::{read_real_line, CsaLineBuffer, CsaLinesStream, CsaStream, CsaStringReader};
