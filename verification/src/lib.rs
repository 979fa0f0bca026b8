//! The verified core of a terminal music player: which files are audio, the
//! 16-bit WAV that ffmpeg writes, the playback state, the directory listing,
//! the interface state and what each key does, and the visualisation
//! settings with their configuration document.
pub mod audio;
pub mod browser;
pub mod display;
pub mod session;
pub mod settings;
pub mod text;
