//! Real-time noise suppression for desktop audio: the decisions, buffers and data layouts around
//! a denoising network.

pub mod blackhole;
pub mod block;
pub mod buffer;
pub mod bytes;
pub mod chain;
pub mod chunk;
pub mod clock;
pub mod config;
pub mod coreaudio;
pub mod denoiser;
pub mod devices;
pub mod dsp;
pub mod features;
pub mod filterbank;
pub mod gui;
pub mod icon;
pub mod layout;
pub mod mac;
pub mod meter;
pub mod model;
pub mod network;
pub mod pipewire;
pub mod plugin;
pub mod port;
pub mod pulse;
pub mod queue;
pub mod ring;
pub mod rolling;
pub mod server;
pub mod settings;
pub mod stft;
pub mod text;
pub mod wav;
pub mod window;
