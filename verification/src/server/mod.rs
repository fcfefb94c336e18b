//! The protocols that the server speaks.

pub mod cgi_reader;
pub mod cgi_request;
pub mod checker;
pub mod connect;
pub mod dispatch;
pub mod fastcgi;
pub mod limits;
pub mod listener;
pub mod logging;
pub mod metrics;
pub mod pool;
pub mod proxy;
pub mod proxy_head;
pub mod proxy_stream;
pub mod fault;
pub mod front;
pub mod gzip;
pub mod health;
pub mod http;
pub mod http2;
pub mod quality;
pub mod record;
pub mod response;
pub mod send;
pub mod session;
pub mod tls;
pub mod upstream;
pub mod websocket;
