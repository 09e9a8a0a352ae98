//! Access the operating system's built-in DNS-SD / mDNS stack for service registration.
//!
//! This crate holds what registering a service decides and computes: the builder of a
//! registration, the validation of its TXT record against the DNS-SD rules, and, for
//! each native backend (Avahi over D-Bus, the macOS DNS-SD framework, the Win32 DNS-SD
//! API), the arguments handed to the system and the meaning of what it answers.

pub mod avahi;
pub mod dnssd;
pub mod register;
mod text;
pub mod windows_dns;

pub use register::{
    interface_number_or_all, validate_txt_records, InterfaceIndex, RegistrationRequest,
    ServiceRegistrationBuilder, ServiceRegistrationError, TxtRecordValue,
};
