# zisk_precompiles

Verified logic of the ZisK precompile hint stream, the DMA precompile state machines and
the emulator's region-of-interest statistics, written in Verus.

- `src/` is the verified library. Every function has a contract proved by Verus:
  - hint codes, headers and parsing (`hint_code`, `hint_names`, `hint_format`,
    `precompile_hint`), payload validation of every built-in hint (`hint_handlers`);
  - the hint processors as state machines with an ordered result buffer
    (`result_queue`, `hints_processor`), the batch that hands its sink one vector
    (`hint_batch`), the relay's batch check (`hints_relay`), the decisions of the stream
    loop (`stream_position`) and the error messages (`error_message`);
  - the DMA split, counters, head/tail and whole-word rows and segments (`dma_*`);
  - direct DMA call detection in decoded RISC-V code (`direct_calls`);
  - regions of interest with a shadow call stack (`regions_of_interest`, `stats`);
  - the bit schedule of the secp256k1 double scalar multiplication (`secp256k1_mul`);
  - names and layout of the shared memory regions (`shmem_names`), byte images
    (`bytes`), stream traits (`io_stream`).
- `app/` is the unverified runtime around it: thread pools and drainer, tokio relay,
  shared memory access, files, the curve arithmetic and the printing of reports.
- `tests/` exercises the library on concrete values.
