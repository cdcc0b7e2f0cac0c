//! The settings of the service.
use vstd::prelude::*;
use vstd::string::StringExecFns;

verus! {

/// Where the operator-facing server listens.
#[derive(Debug)]
pub struct ServerConfig {
    pub port: u16,
    pub host: String,
}

/// Where the slot and reserve endpoints of the oracle are.
#[derive(Debug)]
pub struct HyperbeamConfig {
    pub base_url: String,
}

/// Where the second reserve source is.
#[derive(Debug)]
pub struct AoConfig {
    pub cu_url: String,
}

/// The periods of the scheduler loops, in seconds, and the pause between
/// two look-ups of the queue prefetch, in milliseconds.
#[derive(Debug)]
pub struct MonitoringConfig {
    pub cron_list_interval: u64,
    pub queue_slots_interval: u64,
    pub synced_pools_interval: u64,
    pub monitor_loop_interval: u64,
    pub queue_slots_delay: u64,
}

/// The concurrency limit and the sizes of the previews.
#[derive(Debug)]
pub struct LimitsConfig {
    pub max_active_processes: usize,
    pub queue_preview_limit: usize,
    pub queue_check_limit: usize,
}

/// How often the status page reloads, in seconds.
#[derive(Debug)]
pub struct UiConfig {
    pub refresh_interval: u64,
}

/// What is logged, and in which form.
#[derive(Debug)]
pub struct LoggingConfig {
    pub level: String,
    pub format: String,
}

/// All settings of the service.
#[derive(Debug)]
pub struct ServiceConfig {
    pub server: ServerConfig,
    pub hyperbeam: HyperbeamConfig,
    pub ao: AoConfig,
    pub monitoring: MonitoringConfig,
    pub limits: LimitsConfig,
    pub ui: UiConfig,
    pub logging: LoggingConfig,
}

impl ServiceConfig {
    /// Whether these are the settings used where no file says otherwise.
    pub open spec fn is_default(self) -> bool {
        &&& self.server.port == 8080
        &&& self.server.host@ == "0.0.0.0"@
        &&& self.hyperbeam.base_url@ == "http://65.108.7.125:8734"@
        &&& self.ao.cu_url@ == "https://cu.ao-testnet.xyz"@
        &&& self.monitoring.cron_list_interval == 15
        &&& self.monitoring.queue_slots_interval == 30
        &&& self.monitoring.synced_pools_interval == 60
        &&& self.monitoring.monitor_loop_interval == 15
        &&& self.monitoring.queue_slots_delay == 10
        &&& self.limits.max_active_processes == 5
        &&& self.limits.queue_preview_limit == 10
        &&& self.limits.queue_check_limit == 20
        &&& self.ui.refresh_interval == 5
        &&& self.logging.level@ == "info"@
        &&& self.logging.format@ == "full"@
    }
}

impl Clone for ServerConfig {
    fn clone(&self) -> (r: ServerConfig)
        ensures
            r == *self,
    {
        ServerConfig { port: self.port, host: self.host.clone() }
    }
}

impl Clone for HyperbeamConfig {
    fn clone(&self) -> (r: HyperbeamConfig)
        ensures
            r == *self,
    {
        HyperbeamConfig { base_url: self.base_url.clone() }
    }
}

impl Clone for AoConfig {
    fn clone(&self) -> (r: AoConfig)
        ensures
            r == *self,
    {
        AoConfig { cu_url: self.cu_url.clone() }
    }
}

impl Clone for MonitoringConfig {
    fn clone(&self) -> (r: MonitoringConfig)
        ensures
            r == *self,
    {
        MonitoringConfig {
            cron_list_interval: self.cron_list_interval,
            queue_slots_interval: self.queue_slots_interval,
            synced_pools_interval: self.synced_pools_interval,
            monitor_loop_interval: self.monitor_loop_interval,
            queue_slots_delay: self.queue_slots_delay,
        }
    }
}

impl Clone for LimitsConfig {
    fn clone(&self) -> (r: LimitsConfig)
        ensures
            r == *self,
    {
        LimitsConfig {
            max_active_processes: self.max_active_processes,
            queue_preview_limit: self.queue_preview_limit,
            queue_check_limit: self.queue_check_limit,
        }
    }
}

impl Clone for UiConfig {
    fn clone(&self) -> (r: UiConfig)
        ensures
            r == *self,
    {
        UiConfig { refresh_interval: self.refresh_interval }
    }
}

impl Clone for LoggingConfig {
    fn clone(&self) -> (r: LoggingConfig)
        ensures
            r == *self,
    {
        LoggingConfig { level: self.level.clone(), format: self.format.clone() }
    }
}

impl Clone for ServiceConfig {
    fn clone(&self) -> (r: ServiceConfig)
        ensures
            r == *self,
    {
        ServiceConfig {
            server: self.server.clone(),
            hyperbeam: self.hyperbeam.clone(),
            ao: self.ao.clone(),
            monitoring: self.monitoring.clone(),
            limits: self.limits.clone(),
            ui: self.ui.clone(),
            logging: self.logging.clone(),
        }
    }
}

impl Default for ServiceConfig {
    fn default() -> (r: ServiceConfig)
        ensures
            r.is_default(),
    {
        ServiceConfig {
            server: ServerConfig { port: 8080, host: String::from_str("0.0.0.0") },
            hyperbeam: HyperbeamConfig { base_url: String::from_str("http://65.108.7.125:8734") },
            ao: AoConfig { cu_url: String::from_str("https://cu.ao-testnet.xyz") },
            monitoring: MonitoringConfig {
                cron_list_interval: 15,
                queue_slots_interval: 30,
                synced_pools_interval: 60,
                monitor_loop_interval: 15,
                queue_slots_delay: 10,
            },
            limits: LimitsConfig {
                max_active_processes: 5,
                queue_preview_limit: 10,
                queue_check_limit: 20,
            },
            ui: UiConfig { refresh_interval: 5 },
            logging: LoggingConfig {
                level: String::from_str("info"),
                format: String::from_str("full"),
            },
        }
    }
}

} // verus!
