pub mod commands;
pub mod curl;
pub mod curl_round_trip;
pub mod editor;
pub mod envedit;
pub mod history;
pub mod http;
pub mod jsontree;
pub mod loader;
pub mod model;
pub mod openapi;
pub mod openapi_doc;
pub mod order;
pub mod strmap;
pub mod text;
pub mod vault;
