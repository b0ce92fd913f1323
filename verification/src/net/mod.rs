pub mod packet;
pub mod arp;
pub mod device;
pub mod dhcp;
pub mod network;
pub mod router;
