//! Opening a template-distribution connection: the `SetupConnection` a
//! template receiver sends. The socket work around it lives with the
//! surrounding program, which hands host and port in as plain values.

use vstd::prelude::*;
use crate::codec::CodecError;
use crate::common_messages::Protocol;
use crate::common_messages::SetupConnection;
use crate::datatypes::Inner;

verus! {

/// Builds the `SetupConnection` that opens a template-distribution link.
pub struct SetupConnectionHandler {}

impl SetupConnectionHandler {
    /// The `SetupConnection` for the given endpoint: template distribution,
    /// protocol version two only, no flags, and an anonymous device.
    ///
    /// Fails exactly when the host is no UTF-8 text that fits a 255-byte
    /// string.
    pub fn get_setup_connection_message(endpoint_host: Vec<u8>, endpoint_port: u16) -> (r: Result<
        SetupConnection,
        CodecError,
    >)
        ensures
            (endpoint_host@.len() <= 255 && crate::datatypes::is_utf8(endpoint_host@)) ==> (r
                matches Ok(m) && m.wf() && m.protocol == Protocol::TemplateDistributionProtocol
                && m.min_version == 2 && m.max_version == 2 && m.flags == 0 && m.endpoint_host@
                == endpoint_host@ && m.endpoint_port == endpoint_port && m.vendor@.len() == 0
                && m.hardware_version@.len() == 0 && m.firmware@.len() == 0 && m.device_id@.len()
                == 0),
            !(endpoint_host@.len() <= 255 && crate::datatypes::is_utf8(endpoint_host@)) ==> r
                is Err,
    {
        let endpoint_host = match crate::datatypes::str0255_from_utf8(endpoint_host) {
            Ok(h) => h,
            Err(e) => {
                return Err(e);
            },
        };
        let vendor = Inner { data: Vec::new() };
        let hardware_version = Inner { data: Vec::new() };
        let firmware = Inner { data: Vec::new() };
        let device_id = Inner { data: Vec::new() };
        Ok(
            SetupConnection {
                protocol: Protocol::TemplateDistributionProtocol,
                min_version: 2,
                max_version: 2,
                flags: 0,
                endpoint_host,
                endpoint_port,
                vendor,
                hardware_version,
                firmware,
                device_id,
            },
        )
    }
}

} // verus!
