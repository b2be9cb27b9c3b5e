//! Verified core of a terminal launcher for llama.cpp tools.
pub mod text;
pub mod ordered;
pub mod huggingface;
pub mod list_picker;
pub mod model_picker;
pub mod llama_cpp;
pub mod cuda_toolkit;
pub mod cli;
