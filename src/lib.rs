//! Platform layer of a remote-access agent: cursor image capture and the
//! decisions of the loop that keeps one worker process per desktop session.
pub mod capture;
pub mod lifecycle;
pub mod mask;
pub mod mono;
pub mod outline;
pub mod pixels;
pub mod sessions;
pub mod throttle;
