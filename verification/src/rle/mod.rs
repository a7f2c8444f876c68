mod decode_consecutive_runs;
mod encode_consecutive_runs;
mod instruction;
mod run_length_encoding;

pub use decode_consecutive_runs::DecodeConsecutiveRuns;
pub use encode_consecutive_runs::{eq_reflects_equality, EncodeConsecutiveRuns};

pub use run_length_encoding::{
    lemma_runs_count, spec_append_run, spec_count_markers, spec_extend_runs, spec_repeat,
    spec_run_values, spec_runs_acc, Rle,
};

pub use instruction::{
    pack_length, pack_length_iter, spec_log2, spec_pack_pieces, spec_sum_unpacked,
    spec_unpack_length, unpack_length, RleInstruction,
};
