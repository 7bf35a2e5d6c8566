[package]
name = "doritrack"
version = "0.1.0"
edition = "2021"
publish = false

[dependencies]
blake2 = "=0.10.6"
chacha20poly1305 = "=0.10.1"
getrandom = "=0.3.4"
libc = "=0.2.191"
libusb1-sys = "=0.7.0"
secret-service = { version = "=4.0.0", features = ["rt-async-io-crypto-rust"] }
serde = { version = "=1.0.229", features = ["derive"] }
serde_json = "=1.0.154"
snow = { version = "=0.10.0", features = ["risky-raw-split"] }
zeroize = "=1.9.1"

[dependencies.windows-sys]
version = "=0.61.2"
features = [
    "Win32_Foundation",
    "Win32_Graphics_Gdi",
    "Win32_NetworkManagement_IpHelper",
    "Win32_NetworkManagement_Ndis",
    "Win32_Networking_WinSock",
    "Win32_Security",
    "Win32_Security_Cryptography",
    "Win32_Storage_Packaging_Appx",
    "Win32_System_Console",
    "Win32_System_IO",
    "Win32_System_LibraryLoader",
    "Win32_System_Registry",
    "Win32_System_Threading",
    "Win32_UI_Controls",
    "Win32_UI_HiDpi",
    "Win32_UI_Input_KeyboardAndMouse",
    "Win32_UI_Input_Pointer",
    "Win32_UI_WindowsAndMessaging",
]
