use vstd::prelude::*;

verus! {

/// The marks to put on an outgoing socket before it connects.
#[derive(Clone, Copy, Debug)]
pub struct TrafficMarkConfig {
    /// The Linux `SO_MARK` value.
    pub so_mark: Option<u32>,
    /// The macOS `SO_NET_SERVICE_TYPE` value.
    pub net_service_type: Option<u32>,
}

/// The platform a socket is marked on.
#[derive(Clone, Copy, Debug, PartialEq, Eq, Structural)]
pub enum Platform {
    Linux,
    MacOs,
    Other,
}

/// One socket option to set.
#[derive(Clone, Copy, Debug, PartialEq, Eq, Structural)]
pub enum MarkOption {
    SoMark(u32),
    NetServiceType(u32),
}

impl TrafficMarkConfig {
    pub fn new(so_mark: Option<u32>, net_service_type: Option<u32>) -> (r: Self)
        ensures
            r.so_mark == so_mark,
            r.net_service_type == net_service_type,
    {
        TrafficMarkConfig { so_mark, net_service_type }
    }

    /// Marking with the Linux `SO_MARK` only.
    pub fn with_so_mark(mark: u32) -> (r: Self)
        ensures
            r.so_mark == Some(mark),
            r.net_service_type is None,
    {
        TrafficMarkConfig { so_mark: Some(mark), net_service_type: None }
    }

    /// Marking with the macOS `SO_NET_SERVICE_TYPE` only.
    pub fn with_net_service_type(service_type: u32) -> (r: Self)
        ensures
            r.so_mark is None,
            r.net_service_type == Some(service_type),
    {
        TrafficMarkConfig { so_mark: None, net_service_type: Some(service_type) }
    }

    /// The configuration of the plain values the configuration file holds,
    /// where zero disables a mark.
    pub fn from_values(so_mark: u32, net_service_type: u32) -> (r: Self)
        ensures
            r.so_mark == (if so_mark > 0 { Some(so_mark) } else { None::<u32> }),
            r.net_service_type == (if net_service_type > 0 { Some(net_service_type) } else { None::<u32> }),
    {
        TrafficMarkConfig {
            so_mark: if so_mark > 0 { Some(so_mark) } else { None },
            net_service_type: if net_service_type > 0 { Some(net_service_type) } else { None },
        }
    }

    /// Whether any mark is configured.
    pub fn is_enabled(&self) -> (r: bool)
        ensures
            r == (self.so_mark is Some || self.net_service_type is Some),
    {
        self.so_mark.is_some() || self.net_service_type.is_some()
    }

    /// The options to set on `platform`, in order: `SO_MARK` only on Linux,
    /// `SO_NET_SERVICE_TYPE` only on macOS; a mark the platform lacks is
    /// skipped.
    pub fn options_for(&self, platform: Platform) -> (r: Vec<MarkOption>)
        ensures
            r@ == (match (self.so_mark, platform) {
                (Some(m), Platform::Linux) => seq![MarkOption::SoMark(m)],
                _ => Seq::<MarkOption>::empty(),
            }) + (match (self.net_service_type, platform) {
                (Some(t), Platform::MacOs) => seq![MarkOption::NetServiceType(t)],
                _ => Seq::<MarkOption>::empty(),
            }),
    {
        let mut r: Vec<MarkOption> = Vec::new();
        if let Some(m) = self.so_mark {
            if platform == Platform::Linux {
                r.push(MarkOption::SoMark(m));
            }
        }
        if let Some(t) = self.net_service_type {
            if platform == Platform::MacOs {
                r.push(MarkOption::NetServiceType(t));
            }
        }
        assert(r@ =~= (match (self.so_mark, platform) {
            (Some(m), Platform::Linux) => seq![MarkOption::SoMark(m)],
            _ => Seq::<MarkOption>::empty(),
        }) + (match (self.net_service_type, platform) {
            (Some(t), Platform::MacOs) => seq![MarkOption::NetServiceType(t)],
            _ => Seq::<MarkOption>::empty(),
        }));
        r
    }
}

} // verus!
