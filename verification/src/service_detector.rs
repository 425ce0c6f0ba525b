//! Finding the services of a project from the manifests in its tree. Looking
//! into the tree is left to the caller; what it found is judged here.

use vstd::prelude::*;
use crate::models::{
    opt_string, service_views, texts, EnvVar, Service, ServiceStatus, ServiceType, ServiceView,
    Timestamp,
};
use crate::paths::{join_path, joined_path};
use crate::plain::{trim, trimmed};
use crate::text::{
    json_nested_str, json_nested_text, parse_u16, parsed_u16, second_piece, split_second,
};

verus! {

/// What was found in the tree of a project.
#[derive(Debug)]
pub struct ProjectProbe {
    pub project_root: String,
    /// `backend/go.mod` exists.
    pub backend_module: bool,
    /// `backend/.air.toml` exists.
    pub backend_reload_config: bool,
    /// `dashboard/package.json` exists.
    pub dashboard_manifest: bool,
    /// What `dashboard/package.json` holds, where it could be read.
    pub dashboard_manifest_text: Option<String>,
    /// `tracker/package.json` exists.
    pub tracker_manifest: bool,
    /// `demo/blog/artisan` exists.
    pub demo_entry: bool,
}

/// The dashboard listens here where its manifest names no port.
pub const DEFAULT_DASHBOARD_PORT: u16 = 3009;

/// The port that a development script names after `-p`.
pub open spec fn script_port(script: Seq<char>) -> Option<u16> {
    match second_piece(script, "-p"@) {
        Some(p) => parsed_u16(trimmed(p)),
        None => None,
    }
}

/// The port that the development script of a package manifest names.
pub open spec fn manifest_port(manifest: Seq<char>) -> Option<u16> {
    match json_nested_text(manifest, "scripts"@, "dev"@) {
        Some(script) => script_port(script),
        None => None,
    }
}

/// A stopped service, new at `now`, that restarts on a crash and has no
/// variables of its own.
pub open spec fn fresh_service(
    id: Seq<char>,
    name: Seq<char>,
    service_type: ServiceType,
    command: Seq<char>,
    working_dir: Seq<char>,
    port: Option<u16>,
    now: Timestamp,
) -> ServiceView {
    ServiceView {
        id,
        name,
        service_type,
        status: ServiceStatus::Stopped,
        command,
        working_dir,
        port,
        auto_restart: true,
        restart_count: 0,
        created_at: now,
        updated_at: now,
        environment: Seq::empty(),
    }
}

/// The backend: a Go module with a live-reload configuration beside it.
pub open spec fn backend_service(root: Seq<char>, now: Timestamp) -> ServiceView {
    fresh_service(
        "backend"@,
        "Backend (Go)"@,
        ServiceType::Go,
        "air"@,
        joined_path(root, "backend"@),
        Some(8085u16),
        now,
    )
}

/// The dashboard, on the port its manifest names or else on the default.
pub open spec fn dashboard_service(root: Seq<char>, manifest: Option<Seq<char>>, now: Timestamp)
    -> ServiceView {
    let named = match manifest {
        Some(m) => manifest_port(m),
        None => None,
    };
    fresh_service(
        "dashboard"@,
        "Dashboard (Next.js)"@,
        ServiceType::NodeJs,
        "npm run dev"@,
        joined_path(root, "dashboard"@),
        Some(
            match named {
                Some(p) => p,
                None => DEFAULT_DASHBOARD_PORT,
            },
        ),
        now,
    )
}

/// The tracker: it watches files and serves no port.
pub open spec fn tracker_service(root: Seq<char>, now: Timestamp) -> ServiceView {
    fresh_service(
        "tracker"@,
        "Tracker (TypeScript)"@,
        ServiceType::TypeScript,
        "npm run dev"@,
        joined_path(root, "tracker"@),
        None,
        now,
    )
}

/// The demo application.
pub open spec fn demo_service(root: Seq<char>, now: Timestamp) -> ServiceView {
    fresh_service(
        "demo"@,
        "Demo (Laravel)"@,
        ServiceType::Php,
        "php artisan serve"@,
        joined_path(joined_path(root, "demo"@), "blog"@),
        Some(8000u16),
        now,
    )
}

/// The service where it was found, else nothing.
pub open spec fn found(present: bool, service: ServiceView) -> Seq<ServiceView> {
    if present {
        seq![service]
    } else {
        Seq::empty()
    }
}

/// The keys of the first document that are texts, in their order.
pub open spec fn text_keys(keys: Seq<Option<String>>) -> Seq<Seq<char>>
    decreases keys.len(),
{
    if keys.len() == 0 {
        Seq::empty()
    } else {
        match keys.last() {
            Some(k) => text_keys(keys.drop_last()).push(k@),
            None => text_keys(keys.drop_last()),
        }
    }
}

/// Finds the services of a project.
pub struct ServiceDetector;

impl ServiceDetector {
    fn fresh(
        id: &str,
        name: &str,
        service_type: ServiceType,
        command: &str,
        working_dir: String,
        port: Option<u16>,
        now: Timestamp,
    ) -> (s: Service)
        ensures
            s@ == fresh_service(id@, name@, service_type, command@, working_dir@, port, now),
    {
        let environment: Vec<EnvVar> = Vec::new();
        let s = Service {
            id: id.to_owned(),
            name: name.to_owned(),
            service_type,
            status: ServiceStatus::Stopped,
            command: command.to_owned(),
            working_dir,
            port,
            auto_restart: true,
            restart_count: 0,
            created_at: now,
            updated_at: now,
            environment,
        };
        assert(s@.environment =~= Seq::empty());
        s
    }

    /// The port that a development script names after `-p`, as in
    /// `next dev -p 3009`.
    pub fn port_from_dev_script(script: &str) -> (r: Option<u16>)
        ensures
            r == script_port(script@),
    {
        match split_second(script, "-p") {
            Some(p) => parse_u16(trim(p)),
            None => None,
        }
    }

    /// The port that the development script of a package manifest names, if
    /// the manifest has such a script and the script names a port.
    pub fn read_port_from_package_json(manifest: &str) -> (r: Option<u16>)
        ensures
            r == manifest_port(manifest@),
    {
        match json_nested_str(manifest, "scripts", "dev") {
            Some(script) => Self::port_from_dev_script(script.as_str()),
            None => None,
        }
    }

    /// The services of a project, given what was found in its tree: the
    /// backend, the dashboard, the tracker and the demo, in this order, each
    /// where its manifest is there.
    pub fn detect_services(probe: &ProjectProbe, now: Timestamp) -> (r: Vec<Service>)
        ensures
            service_views(r@) == found(
                probe.backend_module && probe.backend_reload_config,
                backend_service(probe.project_root@, now),
            ) + found(
                probe.dashboard_manifest,
                dashboard_service(
                    probe.project_root@,
                    opt_string(probe.dashboard_manifest_text),
                    now,
                ),
            ) + found(probe.tracker_manifest, tracker_service(probe.project_root@, now)) + found(
                probe.demo_entry,
                demo_service(probe.project_root@, now),
            ),
            forall|i: int| 0 <= i < r@.len() ==> (#[trigger] r@[i])@.wf(),
    {
        let root = probe.project_root.as_str();
        let mut out: Vec<Service> = Vec::new();
        assert(service_views(out@) =~= Seq::<ServiceView>::empty());
        if probe.backend_module && probe.backend_reload_config {
            let s = Self::fresh(
                "backend",
                "Backend (Go)",
                ServiceType::Go,
                "air",
                join_path(root, "backend"),
                Some(8085),
                now,
            );
            proof {
                assert(service_views(out@.push(s)) =~= service_views(out@).push(s@));
            }
            out.push(s);
        }
        let ghost v1 = found(
            probe.backend_module && probe.backend_reload_config,
            backend_service(probe.project_root@, now),
        );
        assert(service_views(out@) =~= v1);
        if probe.dashboard_manifest {
            let named = match &probe.dashboard_manifest_text {
                Some(m) => Self::read_port_from_package_json(m.as_str()),
                None => None,
            };
            let port = match named {
                Some(p) => p,
                None => DEFAULT_DASHBOARD_PORT,
            };
            let s = Self::fresh(
                "dashboard",
                "Dashboard (Next.js)",
                ServiceType::NodeJs,
                "npm run dev",
                join_path(root, "dashboard"),
                Some(port),
                now,
            );
            proof {
                assert(service_views(out@.push(s)) =~= service_views(out@).push(s@));
            }
            out.push(s);
        }
        let ghost v2 = v1 + found(
            probe.dashboard_manifest,
            dashboard_service(
                probe.project_root@,
                opt_string(probe.dashboard_manifest_text),
                now,
            ),
        );
        assert(service_views(out@) =~= v2);
        if probe.tracker_manifest {
            let s = Self::fresh(
                "tracker",
                "Tracker (TypeScript)",
                ServiceType::TypeScript,
                "npm run dev",
                join_path(root, "tracker"),
                None,
                now,
            );
            proof {
                assert(service_views(out@.push(s)) =~= service_views(out@).push(s@));
            }
            out.push(s);
        }
        let ghost v3 = v2 + found(
            probe.tracker_manifest,
            tracker_service(probe.project_root@, now),
        );
        assert(service_views(out@) =~= v3);
        if probe.demo_entry {
            let demo = join_path(root, "demo");
            let s = Self::fresh(
                "demo",
                "Demo (Laravel)",
                ServiceType::Php,
                "php artisan serve",
                join_path(demo.as_str(), "blog"),
                Some(8000),
                now,
            );
            proof {
                assert(service_views(out@.push(s)) =~= service_views(out@).push(s@));
            }
            out.push(s);
        }
        assert(service_views(out@) =~= v3 + found(
            probe.demo_entry,
            demo_service(probe.project_root@, now),
        ));
        proof {
            assert forall|i: int| 0 <= i < out@.len() implies (#[trigger] out@[i])@.wf() by {
                assert(service_views(out@)[i] == out@[i]@);
                assert(out@[i]@.environment.len() == 0);
            }
        }
        out
    }

    /// The names of the containers that a compose file declares, given, for
    /// each document of the file, the keys under its `services` entry (a key
    /// that is no text given as nothing). Only the first document counts, and
    /// of its keys only the texts.
    pub fn detect_docker_containers(documents: &Vec<Vec<Option<String>>>) -> (r: Vec<String>)
        ensures
            texts(r@) == if documents@.len() == 0 {
                Seq::<Seq<char>>::empty()
            } else {
                text_keys(documents@[0]@)
            },
    {
        let mut out: Vec<String> = Vec::new();
        assert(texts(out@) =~= Seq::<Seq<char>>::empty());
        if documents.len() == 0 {
            return out;
        }
        let keys = &documents[0];
        let mut i: usize = 0;
        proof {
            assert(keys@.take(0) =~= Seq::<Option<String>>::empty());
        }
        while i < keys.len()
            invariant
                0 <= i <= keys@.len(),
                texts(out@) == text_keys(keys@.take(i as int)),
            decreases keys@.len() - i,
        {
            proof {
                assert(keys@.take(i as int + 1).drop_last() =~= keys@.take(i as int));
                assert(keys@.take(i as int + 1).last() == keys@[i as int]);
            }
            match &keys[i] {
                Some(k) => {
                    let name = k.clone();
                    proof {
                        assert(texts(out@.push(name)) =~= texts(out@).push(name@));
                    }
                    out.push(name);
                },
                None => {},
            }
            i = i + 1;
        }
        proof {
            assert(keys@.take(i as int) =~= keys@);
        }
        out
    }
}

} // verus!
