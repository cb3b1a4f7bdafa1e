//! Verified logic of the ZisK precompile hint stream and DMA precompile helpers.

pub mod bytes;
pub mod error;
pub mod error_message;
pub mod hint_code;
pub mod hint_format;
pub mod precompile_hint;
pub mod result_queue;
pub mod hints_processor;
pub mod hint_batch;
pub mod hint_handlers;
pub mod dma_helpers;
pub mod dma_counter;
pub mod dma_compare;
pub mod dma_pre_post;
pub mod dma_64_aligned;
pub mod regions_of_interest;
pub mod direct_calls;
pub mod stats;
pub mod shmem_names;
pub mod io_stream;
pub mod stream_position;
pub mod dma_input;
pub mod hint_names;
pub mod hints_relay;
pub mod secp256k1_mul;
