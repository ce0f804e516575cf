[package]
name = "gql_gateway"
version = "0.1.0"
edition = "2021"
publish = false

[dependencies]
async-graphql = "7"
async-graphql-actix-web = "7"
actix-web = { version = "4", default-features = false, features = ["macros"] }
sqlx = { version = "0.8", default-features = false, features = ["postgres", "runtime-tokio"] }
dotenv = "0.15"
env_logger = "0.11"
log = "0.4"
