//! Function-calling prompts for completion language models: a catalog of
//! callable functions, the prompt that presents them to a model, the
//! incremental detokenizer used while sampling, the bookkeeping of the
//! sampling loop, and the resolution of sharded weight files.
pub mod functions;
pub mod generation;
pub mod json;
pub mod manifest;
pub mod prompter;
pub mod token_output_stream;
