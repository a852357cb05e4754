//! Ambient-lighting driver core: gamma correction, frame sampling and color
//! reduction, LED message framing, OPC rendering, configuration text handling
//! and the decisions of the capture pipeline.

pub mod gamma_correction;
pub mod color;
pub mod settings;
pub mod pixel_buffer;
pub mod screen_samples;
pub mod comments;
pub mod update_timer;
pub mod hidden_window;
pub mod serial_port;
