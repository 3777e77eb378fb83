pub mod journal;
pub mod util;
pub mod reg;
pub mod plaintext;
pub mod delimited;
pub mod pcap;
pub mod evtx;
