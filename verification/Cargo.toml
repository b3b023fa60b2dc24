[package]
name = "aid_distribution_with_assessments"
version = "0.1.0"
edition = "2021"
publish = false

[dependencies]
ark-ec = "0.4"
ark-ff = "0.4"
ark-std = "0.4"
ark-serialize = "0.4"
ark-bls12-381 = "0.4"
rand = "0.8"
secret_sharing_and_dkg = "*"
tink-core = "*"
tink-hybrid = "*"
tink-signature = "*"
