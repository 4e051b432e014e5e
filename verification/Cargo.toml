[package]
name = "aws_sg_cleanup"
version = "0.1.0"
edition = "2021"
publish = false

[dependencies]
anyhow = "=1.0.104"
async-trait = "=0.1.92"
aws-config = "0.51"
aws-sdk-ec2 = "0.21"
aws-sdk-elasticache = "0.21"
aws-sdk-elasticloadbalancingv2 = "0.21"
aws-sdk-lambda = "0.21"
aws-sdk-rds = "0.21"
aws-types = "0.51"
base16ct = { version = "=0.2.0", features = ["alloc"] }
clap = { version = "=4.6.7", features = ["derive"] }
cli-table = "=0.4.9"
env_logger = "=0.10.2"
futures = "=0.3.34"
itertools = "=0.10.5"
log = "=0.4.34"
parking_lot = "=0.12.5"
rand = "=0.8.8"
sha1 = "=0.10.7"
tokio = { version = "=1.54.1", features = ["macros", "rt-multi-thread"] }
