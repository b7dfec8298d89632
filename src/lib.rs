pub mod headers;
pub mod httprequest;
pub mod httpresponse;
pub mod router;
pub mod text;
