use vstd::prelude::*;

verus! {

/// A caller-supplied overlay: only the fields that are `Some` replace the
/// corresponding field of an existing configuration; every other field keeps
/// its previous value.
#[derive(Debug, Clone)]
pub struct UserProvidedConfig {
    pub port: Option<u16>,
    pub replicas: Option<u16>,
    pub cloud: Option<String>,
    pub workdir: Option<String>,
    pub data: Option<String>,
    pub disk_size: Option<u16>,
    pub cpu: Option<String>,
    pub memory: Option<String>,
    pub accelerators: Option<String>,
    pub setup: Option<String>,
    pub run: Option<String>,
}

/// Mathematical value of an optional string.
pub open spec fn opt_str_view(o: Option<String>) -> Option<Seq<char>> {
    match o {
        Some(s) => Some(s@),
        None => None,
    }
}

/// Mathematical value of a [`UserProvidedConfig`].
pub struct UserProvidedConfigV {
    pub port: Option<u16>,
    pub replicas: Option<u16>,
    pub cloud: Option<Seq<char>>,
    pub workdir: Option<Seq<char>>,
    pub data: Option<Seq<char>>,
    pub disk_size: Option<u16>,
    pub cpu: Option<Seq<char>>,
    pub memory: Option<Seq<char>>,
    pub accelerators: Option<Seq<char>>,
    pub setup: Option<Seq<char>>,
    pub run: Option<Seq<char>>,
}

impl View for UserProvidedConfig {
    type V = UserProvidedConfigV;

    open spec fn view(&self) -> UserProvidedConfigV {
        UserProvidedConfigV {
            port: self.port,
            replicas: self.replicas,
            cloud: opt_str_view(self.cloud),
            workdir: opt_str_view(self.workdir),
            data: opt_str_view(self.data),
            disk_size: self.disk_size,
            cpu: opt_str_view(self.cpu),
            memory: opt_str_view(self.memory),
            accelerators: opt_str_view(self.accelerators),
            setup: opt_str_view(self.setup),
            run: opt_str_view(self.run),
        }
    }
}

impl UserProvidedConfig {
    /// Builds an overlay from its eleven optional fields.
    pub fn new(
        port: Option<u16>,
        replicas: Option<u16>,
        cloud: Option<String>,
        workdir: Option<String>,
        data: Option<String>,
        disk_size: Option<u16>,
        cpu: Option<String>,
        memory: Option<String>,
        accelerators: Option<String>,
        setup: Option<String>,
        run: Option<String>,
    ) -> (r: UserProvidedConfig)
        ensures
            r@ == (UserProvidedConfigV {
                port,
                replicas,
                cloud: opt_str_view(cloud),
                workdir: opt_str_view(workdir),
                data: opt_str_view(data),
                disk_size,
                cpu: opt_str_view(cpu),
                memory: opt_str_view(memory),
                accelerators: opt_str_view(accelerators),
                setup: opt_str_view(setup),
                run: opt_str_view(run),
            }),
    {
        UserProvidedConfig {
            port,
            replicas,
            cloud,
            workdir,
            data,
            disk_size,
            cpu,
            memory,
            accelerators,
            setup,
            run,
        }
    }
}

/// The service section of a configuration: the readiness-probe path and the
/// desired replica count.
#[derive(Debug, Clone)]
pub struct Service {
    pub readiness_probe: String,
    pub replicas: u16,
}

/// Mathematical value of a [`Service`].
pub struct ServiceV {
    pub readiness_probe: Seq<char>,
    pub replicas: u16,
}

impl View for Service {
    type V = ServiceV;

    open spec fn view(&self) -> ServiceV {
        ServiceV { readiness_probe: self.readiness_probe@, replicas: self.replicas }
    }
}

/// The resource section of a configuration: port, cloud target, CPU/memory
/// ranges, disk size and the optional accelerator request.
#[derive(Debug, Clone)]
pub struct Resources {
    pub ports: u16,
    pub cloud: String,
    pub cpus: String,
    pub memory: String,
    pub disk_size: u16,
    pub accelerators: Option<String>,
}

/// Mathematical value of a [`Resources`].
pub struct ResourcesV {
    pub ports: u16,
    pub cloud: Seq<char>,
    pub cpus: Seq<char>,
    pub memory: Seq<char>,
    pub disk_size: u16,
    pub accelerators: Option<Seq<char>>,
}

impl View for Resources {
    type V = ResourcesV;

    open spec fn view(&self) -> ResourcesV {
        ResourcesV {
            ports: self.ports,
            cloud: self.cloud@,
            cpus: self.cpus@,
            memory: self.memory@,
            disk_size: self.disk_size,
            accelerators: opt_str_view(self.accelerators),
        }
    }
}

/// The full desired configuration of one service.
#[derive(Debug, Clone)]
pub struct Configuration {
    pub service: Service,
    pub resources: Resources,
    pub workdir: String,
    pub setup: String,
    pub run: String,
}

/// Mathematical value of a [`Configuration`].
pub struct ConfigurationV {
    pub service: ServiceV,
    pub resources: ResourcesV,
    pub workdir: Seq<char>,
    pub setup: Seq<char>,
    pub run: Seq<char>,
}

impl View for Configuration {
    type V = ConfigurationV;

    open spec fn view(&self) -> ConfigurationV {
        ConfigurationV {
            service: self.service@,
            resources: self.resources@,
            workdir: self.workdir@,
            setup: self.setup@,
            run: self.run@,
        }
    }
}

/// The overlay-merge: each field that the overlay sets replaces the base
/// field; every other field keeps the base value.  The overlay's `data`
/// field is payload kept beside the configuration and changes nothing here.
pub open spec fn overlay(base: ConfigurationV, o: UserProvidedConfigV) -> ConfigurationV {
    ConfigurationV {
        service: ServiceV {
            readiness_probe: base.service.readiness_probe,
            replicas: if o.replicas is Some { o.replicas->0 } else { base.service.replicas },
        },
        resources: ResourcesV {
            ports: if o.port is Some { o.port->0 } else { base.resources.ports },
            cloud: if o.cloud is Some { o.cloud->0 } else { base.resources.cloud },
            cpus: if o.cpu is Some { o.cpu->0 } else { base.resources.cpus },
            memory: if o.memory is Some { o.memory->0 } else { base.resources.memory },
            disk_size: if o.disk_size is Some { o.disk_size->0 } else {
                base.resources.disk_size
            },
            accelerators: if o.accelerators is Some { o.accelerators } else {
                base.resources.accelerators
            },
        },
        workdir: if o.workdir is Some { o.workdir->0 } else { base.workdir },
        setup: if o.setup is Some { o.setup->0 } else { base.setup },
        run: if o.run is Some { o.run->0 } else { base.run },
    }
}

/// Overlay merge, field by field: a field set by the overlay comes out of
/// the merge; a field the overlay leaves unset keeps the base value.
pub proof fn lemma_overlay_fields(base: ConfigurationV, o: UserProvidedConfigV)
    ensures
        overlay(base, o).resources.ports == if o.port is Some { o.port->0 } else {
            base.resources.ports
        },
        overlay(base, o).service.replicas == if o.replicas is Some { o.replicas->0 } else {
            base.service.replicas
        },
        overlay(base, o).resources.cloud == if o.cloud is Some { o.cloud->0 } else {
            base.resources.cloud
        },
        overlay(base, o).workdir == if o.workdir is Some { o.workdir->0 } else { base.workdir },
        overlay(base, o).resources.disk_size == if o.disk_size is Some { o.disk_size->0 } else {
            base.resources.disk_size
        },
        overlay(base, o).resources.cpus == if o.cpu is Some { o.cpu->0 } else {
            base.resources.cpus
        },
        overlay(base, o).resources.memory == if o.memory is Some { o.memory->0 } else {
            base.resources.memory
        },
        overlay(base, o).resources.accelerators == if o.accelerators is Some {
            o.accelerators
        } else {
            base.resources.accelerators
        },
        overlay(base, o).setup == if o.setup is Some { o.setup->0 } else { base.setup },
        overlay(base, o).run == if o.run is Some { o.run->0 } else { base.run },
        overlay(base, o).service.readiness_probe == base.service.readiness_probe,
{
}

impl Configuration {
    /// Applies a caller-supplied overlay onto this configuration.
    pub fn update(&mut self, config: &UserProvidedConfig)
        ensures
            final(self)@ == overlay(old(self)@, config@),
    {
        if let Some(port) = config.port {
            self.resources.ports = port;
        }
        if let Some(replicas) = config.replicas {
            self.service.replicas = replicas;
        }
        if let Some(cloud) = &config.cloud {
            self.resources.cloud = cloud.clone();
        }
        if let Some(workdir) = &config.workdir {
            self.workdir = workdir.clone();
        }
        if let Some(disk_size) = config.disk_size {
            self.resources.disk_size = disk_size;
        }
        if let Some(cpu) = &config.cpu {
            self.resources.cpus = cpu.clone();
        }
        if let Some(memory) = &config.memory {
            self.resources.memory = memory.clone();
        }
        if let Some(accelerators) = &config.accelerators {
            self.resources.accelerators = Some(accelerators.clone());
        }
        if let Some(setup) = &config.setup {
            self.setup = setup.clone();
        }
        if let Some(run) = &config.run {
            self.run = run.clone();
        }
    }

    /// A small fixed configuration for exercising the manager.
    pub fn test_config() -> (r: Configuration)
        ensures
            r@ == spec_test_config(),
    {
        test_config()
    }
}

/// The default configuration template.
pub open spec fn spec_default_configuration() -> ConfigurationV {
    ConfigurationV {
        service: ServiceV { readiness_probe: "/health"@, replicas: 2 },
        resources: ResourcesV {
            ports: 8080,
            cloud: "aws"@,
            cpus: "4+"@,
            memory: "10+"@,
            disk_size: 100,
            accelerators: None,
        },
        workdir: "."@,
        setup: "conda install cudatoolkit -y\npip install poetry\npoetry install\n"@,
        run: "poetry run python service.py\n"@,
    }
}

impl Default for Configuration {
    /// The default template every new service starts from.
    fn default() -> (r: Configuration)
        ensures
            r@ == spec_default_configuration(),
    {
        Configuration {
            service: Service { readiness_probe: "/health".to_owned(), replicas: 2 },
            resources: Resources {
                ports: 8080,
                cloud: "aws".to_owned(),
                cpus: "4+".to_owned(),
                memory: "10+".to_owned(),
                disk_size: 100,
                accelerators: None,
            },
            workdir: ".".to_owned(),
            setup: "conda install cudatoolkit -y\npip install poetry\npoetry install\n".to_owned(),
            run: "poetry run python service.py\n".to_owned(),
        }
    }
}

/// Value of the fixed configuration returned by [`test_config`].
pub open spec fn spec_test_config() -> ConfigurationV {
    ConfigurationV {
        service: ServiceV { readiness_probe: "/"@, replicas: 1 },
        resources: ResourcesV {
            ports: 8080,
            cloud: "aws"@,
            cpus: "4+"@,
            memory: "10+"@,
            disk_size: 50,
            accelerators: None,
        },
        workdir: "."@,
        setup: ""@,
        run: "python -m http.server 8080\n"@,
    }
}

/// A small fixed configuration for exercising the manager.
pub fn test_config() -> (r: Configuration)
    ensures
        r@ == spec_test_config(),
{
    Configuration {
        service: Service { readiness_probe: "/".to_owned(), replicas: 1 },
        resources: Resources {
            ports: 8080,
            cloud: "aws".to_owned(),
            cpus: "4+".to_owned(),
            memory: "10+".to_owned(),
            disk_size: 50,
            accelerators: None,
        },
        workdir: ".".to_owned(),
        setup: "".to_owned(),
        run: "python -m http.server 8080\n".to_owned(),
    }
}

} // verus!
