pub mod error_channel;
