# dns_sd_native

Registration of DNS-SD services with the operating system's own stack: Avahi over
D-Bus on Linux and the BSDs, the DNS-SD framework on macOS, the Win32 DNS-SD API on
Windows.

- `src/` is the verified library: the registration builder and the validation of its
  TXT record against the rules of RFC 6763 (`register.rs`), and, for each backend, the
  arguments handed to the system and the meaning of its answers (`avahi.rs`,
  `dnssd.rs`, `windows_dns.rs`), with `text.rs` for decimal formatting of status codes.
- `app/` holds what talks to the system: the D-Bus proxies, the FFI bindings, the
  asynchronous registration and unregistration, and the error type with its `Display`.
- `tests/` exercises the library on concrete values.
