[package]
name = "hdfs_gui_lib"
version = "0.1.0"
edition = "2021"
publish = false

[dependencies]
hdfs-native = "=0.14.6"
tokio = { version = "=1.53.2", features = ["rt-multi-thread"] }
bytes = "=1.12.1"
serde = { version = "=1.0.229", features = ["derive"] }
serde_json = "=1.0.151"
futures = "=0.3.34"
arrow = "=59.3.0"
parquet = { version = "=59.3.0", features = ["async", "arrow"] }
orc-rust = { version = "=0.9.0", features = ["async"] }
apache-avro = "=0.22.0"
hex = "=0.4.3"
ascii = "=1.1.0"
awol2005ex_kerbeiros = "=0.4.2"
awol2005ex_kerberos_keytab = "=0.4.2"
awol2005ex_kerberos_crypto = "=0.4.2"
