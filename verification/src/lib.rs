//! Decisions behind a printer's dashboard server.
pub mod assets;
pub mod auth;
pub mod camera;
pub mod camerad;
pub mod captures;
pub mod control;
pub mod detect;
pub mod doom;
pub mod emulate;
pub mod emulator_start;
pub mod fake;
pub mod files;
pub mod ftp_control;
pub mod ftp_lines;
pub mod ftpd;
pub mod gcode;
pub mod hook;
pub mod ids;
pub mod job;
pub mod json;
pub mod live;
pub mod machine;
pub mod net;
pub mod number;
pub mod park;
pub mod paths;
pub mod printer_files;
pub mod reply;
pub mod serve;
pub mod slice;
pub mod slice_slot;
pub mod slicer;
pub mod slicer_run;
pub mod start;
pub mod stream_record;
pub mod synthetic;
pub mod text;
pub mod timelapse;
mod trace;
pub mod upload;
