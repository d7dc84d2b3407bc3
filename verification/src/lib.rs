//! Local control of a pet feeder: the rules, codecs and state machines of the on-device agent.

pub mod adts;
pub mod advertise;
pub mod ai;
pub mod audioout;
pub mod backchannel;
pub mod backup;
pub mod base64;
pub mod bowl_fill;
pub mod bus;
pub mod bytes;
pub mod catid;
pub mod clips;
pub mod cloud;
pub mod desired;
pub mod embed;
pub mod faces;
pub mod feed_capture;
pub mod foodlevel;
pub mod g711;
pub mod health;
pub mod http;
pub mod json;
pub mod localtime;
pub mod md5;
pub mod number;
pub mod order;
pub mod persist;
pub mod push;
pub mod reports;
pub mod resetguard;
pub mod rfc3640;
pub mod ring;
pub mod ringmon;
pub mod routes;
pub mod rtsp;
pub mod schedule;
pub mod sendmsg;
pub mod sha1;
pub mod text;
