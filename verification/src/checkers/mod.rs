pub mod apt_hooks;
pub mod autostart;
pub mod cron;
pub mod dbus;
pub mod display_manager;
pub mod init;
pub mod ld_so;
pub mod modules;
pub mod network_manager;
pub mod pam;
pub mod shell;
pub mod ssh;
pub mod systemd;
pub mod udev;
