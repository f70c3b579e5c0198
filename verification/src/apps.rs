//! Per-application disk use: how much each well-known application keeps on
//! disk, and how much of that is cache that can be cleared.
use vstd::prelude::*;
use crate::cleaner::{dir_tally, fits, measure_dir, Entry};
use crate::winpath::{path_starts_with, path_within};

verus! {

/// A place an application keeps data: a label, the environment variable
/// naming the base folder, and the path below it (one segment may be `*`).
pub struct AppLocation {
    pub label: String,
    pub env: String,
    pub rel: String,
}

pub struct AppLocationView {
    pub label: Seq<char>,
    pub env: Seq<char>,
    pub rel: Seq<char>,
}

impl View for AppLocation {
    type V = AppLocationView;

    open spec fn view(&self) -> AppLocationView {
        AppLocationView { label: self.label@, env: self.env@, rel: self.rel@ }
    }
}

pub open spec fn location_views(s: Seq<AppLocation>) -> Seq<AppLocationView> {
    s.map_values(|l: AppLocation| l@)
}

/// An application: its name, where its data lives (counted toward its
/// total) and where its caches live (recoverable; those inside a data
/// folder are not counted twice).
pub struct AppSpec {
    pub name: String,
    pub roots: Vec<AppLocation>,
    pub caches: Vec<AppLocation>,
}

pub struct AppSpecView {
    pub name: Seq<char>,
    pub roots: Seq<AppLocationView>,
    pub caches: Seq<AppLocationView>,
}

impl View for AppSpec {
    type V = AppSpecView;

    open spec fn view(&self) -> AppSpecView {
        AppSpecView { name: self.name@, roots: location_views(self.roots@), caches: location_views(self.caches@) }
    }
}

pub open spec fn app_spec_views(s: Seq<AppSpec>) -> Seq<AppSpecView> {
    s.map_values(|a: AppSpec| a@)
}

/// The applications whose disk use is reported, in order.
pub open spec fn app_table() -> Seq<AppSpecView> {
    seq![
        AppSpecView {
            name: "Google Chrome"@,
            roots: seq![AppLocationView { label: "Data"@, env: "LOCALAPPDATA"@, rel: "Google\\Chrome"@ }],
            caches: seq![AppLocationView { label: "Cache"@, env: "LOCALAPPDATA"@, rel: "Google\\Chrome\\User Data\\Default\\Cache"@ }, AppLocationView { label: "Code Cache"@, env: "LOCALAPPDATA"@, rel: "Google\\Chrome\\User Data\\Default\\Code Cache"@ }, AppLocationView { label: "GPU Cache"@, env: "LOCALAPPDATA"@, rel: "Google\\Chrome\\User Data\\Default\\GPUCache"@ }, AppLocationView { label: "Media Cache"@, env: "LOCALAPPDATA"@, rel: "Google\\Chrome\\User Data\\Default\\Media Cache"@ }, AppLocationView { label: "Shader Cache"@, env: "LOCALAPPDATA"@, rel: "Google\\Chrome\\User Data\\ShaderCache"@ }],
        },
        AppSpecView {
            name: "Microsoft Edge"@,
            roots: seq![AppLocationView { label: "Data"@, env: "LOCALAPPDATA"@, rel: "Microsoft\\Edge"@ }],
            caches: seq![AppLocationView { label: "Cache"@, env: "LOCALAPPDATA"@, rel: "Microsoft\\Edge\\User Data\\Default\\Cache"@ }, AppLocationView { label: "Code Cache"@, env: "LOCALAPPDATA"@, rel: "Microsoft\\Edge\\User Data\\Default\\Code Cache"@ }, AppLocationView { label: "GPU Cache"@, env: "LOCALAPPDATA"@, rel: "Microsoft\\Edge\\User Data\\Default\\GPUCache"@ }],
        },
        AppSpecView {
            name: "Mozilla Firefox"@,
            roots: seq![AppLocationView { label: "Data"@, env: "LOCALAPPDATA"@, rel: "Mozilla\\Firefox"@ }],
            caches: seq![AppLocationView { label: "Cache"@, env: "LOCALAPPDATA"@, rel: "Mozilla\\Firefox\\Profiles\\*\\cache2"@ }],
        },
        AppSpecView {
            name: "Discord"@,
            roots: seq![AppLocationView { label: "Data"@, env: "APPDATA"@, rel: "discord"@ }],
            caches: seq![AppLocationView { label: "Cache"@, env: "APPDATA"@, rel: "discord\\Cache"@ }, AppLocationView { label: "Code Cache"@, env: "APPDATA"@, rel: "discord\\Code Cache"@ }, AppLocationView { label: "GPU Cache"@, env: "APPDATA"@, rel: "discord\\GPUCache"@ }],
        },
        AppSpecView {
            name: "Spotify"@,
            roots: seq![AppLocationView { label: "Application"@, env: "APPDATA"@, rel: "Spotify"@ }],
            caches: seq![AppLocationView { label: "Cache"@, env: "LOCALAPPDATA"@, rel: "Spotify"@ }],
        },
        AppSpecView {
            name: "Steam"@,
            roots: seq![AppLocationView { label: "Installation"@, env: "ProgramFiles(x86)"@, rel: "Steam"@ }],
            caches: seq![AppLocationView { label: "App Cache"@, env: "ProgramFiles(x86)"@, rel: "Steam\\appcache"@ }, AppLocationView { label: "Shader Cache"@, env: "ProgramFiles(x86)"@, rel: "Steam\\steamapps\\shadercache"@ }],
        },
        AppSpecView {
            name: "Epic Games Launcher"@,
            roots: seq![AppLocationView { label: "Installation"@, env: "ProgramFiles(x86)"@, rel: "Epic Games"@ }],
            caches: seq![AppLocationView { label: "Web Cache"@, env: "LOCALAPPDATA"@, rel: "EpicGamesLauncher\\Saved\\webcache"@ }],
        },
        AppSpecView {
            name: "VS Code"@,
            roots: seq![AppLocationView { label: "Installation"@, env: "LOCALAPPDATA"@, rel: "Programs\\Microsoft VS Code"@ }, AppLocationView { label: "User Data"@, env: "APPDATA"@, rel: "Code"@ }, AppLocationView { label: "Extensions"@, env: "USERPROFILE"@, rel: ".vscode"@ }],
            caches: seq![AppLocationView { label: "Cache"@, env: "APPDATA"@, rel: "Code\\Cache"@ }, AppLocationView { label: "Cached Data"@, env: "APPDATA"@, rel: "Code\\CachedData"@ }, AppLocationView { label: "Code Cache"@, env: "APPDATA"@, rel: "Code\\Code Cache"@ }, AppLocationView { label: "GPU Cache"@, env: "APPDATA"@, rel: "Code\\GPUCache"@ }],
        },
        AppSpecView {
            name: "Visual Studio"@,
            roots: seq![AppLocationView { label: "Installation"@, env: "ProgramFiles"@, rel: "Microsoft Visual Studio"@ }, AppLocationView { label: "Local Data"@, env: "LOCALAPPDATA"@, rel: "Microsoft\\VisualStudio"@ }],
            caches: seq![AppLocationView { label: "Component Cache"@, env: "LOCALAPPDATA"@, rel: "Microsoft\\VisualStudio\\*\\ComponentModelCache"@ }],
        },
        AppSpecView {
            name: "Node.js"@,
            roots: seq![AppLocationView { label: "Installation"@, env: "ProgramFiles"@, rel: "nodejs"@ }],
            caches: Seq::empty(),
        },
        AppSpecView {
            name: "npm"@,
            roots: seq![AppLocationView { label: "Cache"@, env: "LOCALAPPDATA"@, rel: "npm-cache"@ }],
            caches: seq![AppLocationView { label: "Cache"@, env: "LOCALAPPDATA"@, rel: "npm-cache"@ }],
        },
        AppSpecView {
            name: "pnpm"@,
            roots: seq![AppLocationView { label: "Store"@, env: "LOCALAPPDATA"@, rel: "pnpm"@ }],
            caches: seq![AppLocationView { label: "Store"@, env: "LOCALAPPDATA"@, rel: "pnpm\\store"@ }],
        },
        AppSpecView {
            name: "Yarn"@,
            roots: seq![AppLocationView { label: "Cache"@, env: "LOCALAPPDATA"@, rel: "Yarn"@ }],
            caches: seq![AppLocationView { label: "Cache"@, env: "LOCALAPPDATA"@, rel: "Yarn\\Cache"@ }],
        },
        AppSpecView {
            name: "Docker"@,
            roots: seq![AppLocationView { label: "Data"@, env: "LOCALAPPDATA"@, rel: "Docker"@ }],
            caches: Seq::empty(),
        },
        AppSpecView {
            name: "Android Studio"@,
            roots: seq![AppLocationView { label: "Data"@, env: "LOCALAPPDATA"@, rel: "Google\\AndroidStudio*"@ }, AppLocationView { label: "Gradle"@, env: "USERPROFILE"@, rel: ".gradle"@ }, AppLocationView { label: "SDK / AVD"@, env: "USERPROFILE"@, rel: ".android"@ }],
            caches: seq![AppLocationView { label: "Gradle Caches"@, env: "USERPROFILE"@, rel: ".gradle\\caches"@ }],
        },
        AppSpecView {
            name: "IntelliJ IDEA"@,
            roots: seq![AppLocationView { label: "Data"@, env: "LOCALAPPDATA"@, rel: "JetBrains"@ }],
            caches: seq![AppLocationView { label: "Caches"@, env: "LOCALAPPDATA"@, rel: "JetBrains\\IntelliJIdea*\\caches"@ }],
        },
        AppSpecView {
            name: "Adobe Creative Cloud"@,
            roots: seq![AppLocationView { label: "Installation"@, env: "ProgramFiles"@, rel: "Adobe"@ }, AppLocationView { label: "Local Data"@, env: "LOCALAPPDATA"@, rel: "Adobe"@ }],
            caches: seq![AppLocationView { label: "Media Cache Files"@, env: "APPDATA"@, rel: "Adobe\\Common\\Media Cache Files"@ }, AppLocationView { label: "Media Cache"@, env: "APPDATA"@, rel: "Adobe\\Common\\Media Cache"@ }],
        },
    ]
}

/// The applications whose disk use is reported, with where each keeps its
/// data and its caches.
pub fn app_specs() -> (r: Vec<AppSpec>)
    ensures
        app_spec_views(r@) == app_table(),
{
    let mut specs: Vec<AppSpec> = Vec::new();
    {
        let mut roots: Vec<AppLocation> = Vec::new();
        roots.push(AppLocation { label: "Data".to_owned(), env: "LOCALAPPDATA".to_owned(), rel: "Google\\Chrome".to_owned() });
        let mut caches: Vec<AppLocation> = Vec::new();
        caches.push(AppLocation { label: "Cache".to_owned(), env: "LOCALAPPDATA".to_owned(), rel: "Google\\Chrome\\User Data\\Default\\Cache".to_owned() });
        caches.push(AppLocation { label: "Code Cache".to_owned(), env: "LOCALAPPDATA".to_owned(), rel: "Google\\Chrome\\User Data\\Default\\Code Cache".to_owned() });
        caches.push(AppLocation { label: "GPU Cache".to_owned(), env: "LOCALAPPDATA".to_owned(), rel: "Google\\Chrome\\User Data\\Default\\GPUCache".to_owned() });
        caches.push(AppLocation { label: "Media Cache".to_owned(), env: "LOCALAPPDATA".to_owned(), rel: "Google\\Chrome\\User Data\\Default\\Media Cache".to_owned() });
        caches.push(AppLocation { label: "Shader Cache".to_owned(), env: "LOCALAPPDATA".to_owned(), rel: "Google\\Chrome\\User Data\\ShaderCache".to_owned() });
        proof {
            assert(location_views(roots@) =~= seq![AppLocationView { label: "Data"@, env: "LOCALAPPDATA"@, rel: "Google\\Chrome"@ }]);
            assert(location_views(caches@) =~= seq![AppLocationView { label: "Cache"@, env: "LOCALAPPDATA"@, rel: "Google\\Chrome\\User Data\\Default\\Cache"@ }, AppLocationView { label: "Code Cache"@, env: "LOCALAPPDATA"@, rel: "Google\\Chrome\\User Data\\Default\\Code Cache"@ }, AppLocationView { label: "GPU Cache"@, env: "LOCALAPPDATA"@, rel: "Google\\Chrome\\User Data\\Default\\GPUCache"@ }, AppLocationView { label: "Media Cache"@, env: "LOCALAPPDATA"@, rel: "Google\\Chrome\\User Data\\Default\\Media Cache"@ }, AppLocationView { label: "Shader Cache"@, env: "LOCALAPPDATA"@, rel: "Google\\Chrome\\User Data\\ShaderCache"@ }]);
        }
        specs.push(AppSpec { name: "Google Chrome".to_owned(), roots, caches });
    }
    {
        let mut roots: Vec<AppLocation> = Vec::new();
        roots.push(AppLocation { label: "Data".to_owned(), env: "LOCALAPPDATA".to_owned(), rel: "Microsoft\\Edge".to_owned() });
        let mut caches: Vec<AppLocation> = Vec::new();
        caches.push(AppLocation { label: "Cache".to_owned(), env: "LOCALAPPDATA".to_owned(), rel: "Microsoft\\Edge\\User Data\\Default\\Cache".to_owned() });
        caches.push(AppLocation { label: "Code Cache".to_owned(), env: "LOCALAPPDATA".to_owned(), rel: "Microsoft\\Edge\\User Data\\Default\\Code Cache".to_owned() });
        caches.push(AppLocation { label: "GPU Cache".to_owned(), env: "LOCALAPPDATA".to_owned(), rel: "Microsoft\\Edge\\User Data\\Default\\GPUCache".to_owned() });
        proof {
            assert(location_views(roots@) =~= seq![AppLocationView { label: "Data"@, env: "LOCALAPPDATA"@, rel: "Microsoft\\Edge"@ }]);
            assert(location_views(caches@) =~= seq![AppLocationView { label: "Cache"@, env: "LOCALAPPDATA"@, rel: "Microsoft\\Edge\\User Data\\Default\\Cache"@ }, AppLocationView { label: "Code Cache"@, env: "LOCALAPPDATA"@, rel: "Microsoft\\Edge\\User Data\\Default\\Code Cache"@ }, AppLocationView { label: "GPU Cache"@, env: "LOCALAPPDATA"@, rel: "Microsoft\\Edge\\User Data\\Default\\GPUCache"@ }]);
        }
        specs.push(AppSpec { name: "Microsoft Edge".to_owned(), roots, caches });
    }
    {
        let mut roots: Vec<AppLocation> = Vec::new();
        roots.push(AppLocation { label: "Data".to_owned(), env: "LOCALAPPDATA".to_owned(), rel: "Mozilla\\Firefox".to_owned() });
        let mut caches: Vec<AppLocation> = Vec::new();
        caches.push(AppLocation { label: "Cache".to_owned(), env: "LOCALAPPDATA".to_owned(), rel: "Mozilla\\Firefox\\Profiles\\*\\cache2".to_owned() });
        proof {
            assert(location_views(roots@) =~= seq![AppLocationView { label: "Data"@, env: "LOCALAPPDATA"@, rel: "Mozilla\\Firefox"@ }]);
            assert(location_views(caches@) =~= seq![AppLocationView { label: "Cache"@, env: "LOCALAPPDATA"@, rel: "Mozilla\\Firefox\\Profiles\\*\\cache2"@ }]);
        }
        specs.push(AppSpec { name: "Mozilla Firefox".to_owned(), roots, caches });
    }
    {
        let mut roots: Vec<AppLocation> = Vec::new();
        roots.push(AppLocation { label: "Data".to_owned(), env: "APPDATA".to_owned(), rel: "discord".to_owned() });
        let mut caches: Vec<AppLocation> = Vec::new();
        caches.push(AppLocation { label: "Cache".to_owned(), env: "APPDATA".to_owned(), rel: "discord\\Cache".to_owned() });
        caches.push(AppLocation { label: "Code Cache".to_owned(), env: "APPDATA".to_owned(), rel: "discord\\Code Cache".to_owned() });
        caches.push(AppLocation { label: "GPU Cache".to_owned(), env: "APPDATA".to_owned(), rel: "discord\\GPUCache".to_owned() });
        proof {
            assert(location_views(roots@) =~= seq![AppLocationView { label: "Data"@, env: "APPDATA"@, rel: "discord"@ }]);
            assert(location_views(caches@) =~= seq![AppLocationView { label: "Cache"@, env: "APPDATA"@, rel: "discord\\Cache"@ }, AppLocationView { label: "Code Cache"@, env: "APPDATA"@, rel: "discord\\Code Cache"@ }, AppLocationView { label: "GPU Cache"@, env: "APPDATA"@, rel: "discord\\GPUCache"@ }]);
        }
        specs.push(AppSpec { name: "Discord".to_owned(), roots, caches });
    }
    {
        let mut roots: Vec<AppLocation> = Vec::new();
        roots.push(AppLocation { label: "Application".to_owned(), env: "APPDATA".to_owned(), rel: "Spotify".to_owned() });
        let mut caches: Vec<AppLocation> = Vec::new();
        caches.push(AppLocation { label: "Cache".to_owned(), env: "LOCALAPPDATA".to_owned(), rel: "Spotify".to_owned() });
        proof {
            assert(location_views(roots@) =~= seq![AppLocationView { label: "Application"@, env: "APPDATA"@, rel: "Spotify"@ }]);
            assert(location_views(caches@) =~= seq![AppLocationView { label: "Cache"@, env: "LOCALAPPDATA"@, rel: "Spotify"@ }]);
        }
        specs.push(AppSpec { name: "Spotify".to_owned(), roots, caches });
    }
    {
        let mut roots: Vec<AppLocation> = Vec::new();
        roots.push(AppLocation { label: "Installation".to_owned(), env: "ProgramFiles(x86)".to_owned(), rel: "Steam".to_owned() });
        let mut caches: Vec<AppLocation> = Vec::new();
        caches.push(AppLocation { label: "App Cache".to_owned(), env: "ProgramFiles(x86)".to_owned(), rel: "Steam\\appcache".to_owned() });
        caches.push(AppLocation { label: "Shader Cache".to_owned(), env: "ProgramFiles(x86)".to_owned(), rel: "Steam\\steamapps\\shadercache".to_owned() });
        proof {
            assert(location_views(roots@) =~= seq![AppLocationView { label: "Installation"@, env: "ProgramFiles(x86)"@, rel: "Steam"@ }]);
            assert(location_views(caches@) =~= seq![AppLocationView { label: "App Cache"@, env: "ProgramFiles(x86)"@, rel: "Steam\\appcache"@ }, AppLocationView { label: "Shader Cache"@, env: "ProgramFiles(x86)"@, rel: "Steam\\steamapps\\shadercache"@ }]);
        }
        specs.push(AppSpec { name: "Steam".to_owned(), roots, caches });
    }
    {
        let mut roots: Vec<AppLocation> = Vec::new();
        roots.push(AppLocation { label: "Installation".to_owned(), env: "ProgramFiles(x86)".to_owned(), rel: "Epic Games".to_owned() });
        let mut caches: Vec<AppLocation> = Vec::new();
        caches.push(AppLocation { label: "Web Cache".to_owned(), env: "LOCALAPPDATA".to_owned(), rel: "EpicGamesLauncher\\Saved\\webcache".to_owned() });
        proof {
            assert(location_views(roots@) =~= seq![AppLocationView { label: "Installation"@, env: "ProgramFiles(x86)"@, rel: "Epic Games"@ }]);
            assert(location_views(caches@) =~= seq![AppLocationView { label: "Web Cache"@, env: "LOCALAPPDATA"@, rel: "EpicGamesLauncher\\Saved\\webcache"@ }]);
        }
        specs.push(AppSpec { name: "Epic Games Launcher".to_owned(), roots, caches });
    }
    {
        let mut roots: Vec<AppLocation> = Vec::new();
        roots.push(AppLocation { label: "Installation".to_owned(), env: "LOCALAPPDATA".to_owned(), rel: "Programs\\Microsoft VS Code".to_owned() });
        roots.push(AppLocation { label: "User Data".to_owned(), env: "APPDATA".to_owned(), rel: "Code".to_owned() });
        roots.push(AppLocation { label: "Extensions".to_owned(), env: "USERPROFILE".to_owned(), rel: ".vscode".to_owned() });
        let mut caches: Vec<AppLocation> = Vec::new();
        caches.push(AppLocation { label: "Cache".to_owned(), env: "APPDATA".to_owned(), rel: "Code\\Cache".to_owned() });
        caches.push(AppLocation { label: "Cached Data".to_owned(), env: "APPDATA".to_owned(), rel: "Code\\CachedData".to_owned() });
        caches.push(AppLocation { label: "Code Cache".to_owned(), env: "APPDATA".to_owned(), rel: "Code\\Code Cache".to_owned() });
        caches.push(AppLocation { label: "GPU Cache".to_owned(), env: "APPDATA".to_owned(), rel: "Code\\GPUCache".to_owned() });
        proof {
            assert(location_views(roots@) =~= seq![AppLocationView { label: "Installation"@, env: "LOCALAPPDATA"@, rel: "Programs\\Microsoft VS Code"@ }, AppLocationView { label: "User Data"@, env: "APPDATA"@, rel: "Code"@ }, AppLocationView { label: "Extensions"@, env: "USERPROFILE"@, rel: ".vscode"@ }]);
            assert(location_views(caches@) =~= seq![AppLocationView { label: "Cache"@, env: "APPDATA"@, rel: "Code\\Cache"@ }, AppLocationView { label: "Cached Data"@, env: "APPDATA"@, rel: "Code\\CachedData"@ }, AppLocationView { label: "Code Cache"@, env: "APPDATA"@, rel: "Code\\Code Cache"@ }, AppLocationView { label: "GPU Cache"@, env: "APPDATA"@, rel: "Code\\GPUCache"@ }]);
        }
        specs.push(AppSpec { name: "VS Code".to_owned(), roots, caches });
    }
    {
        let mut roots: Vec<AppLocation> = Vec::new();
        roots.push(AppLocation { label: "Installation".to_owned(), env: "ProgramFiles".to_owned(), rel: "Microsoft Visual Studio".to_owned() });
        roots.push(AppLocation { label: "Local Data".to_owned(), env: "LOCALAPPDATA".to_owned(), rel: "Microsoft\\VisualStudio".to_owned() });
        let mut caches: Vec<AppLocation> = Vec::new();
        caches.push(AppLocation { label: "Component Cache".to_owned(), env: "LOCALAPPDATA".to_owned(), rel: "Microsoft\\VisualStudio\\*\\ComponentModelCache".to_owned() });
        proof {
            assert(location_views(roots@) =~= seq![AppLocationView { label: "Installation"@, env: "ProgramFiles"@, rel: "Microsoft Visual Studio"@ }, AppLocationView { label: "Local Data"@, env: "LOCALAPPDATA"@, rel: "Microsoft\\VisualStudio"@ }]);
            assert(location_views(caches@) =~= seq![AppLocationView { label: "Component Cache"@, env: "LOCALAPPDATA"@, rel: "Microsoft\\VisualStudio\\*\\ComponentModelCache"@ }]);
        }
        specs.push(AppSpec { name: "Visual Studio".to_owned(), roots, caches });
    }
    {
        let mut roots: Vec<AppLocation> = Vec::new();
        roots.push(AppLocation { label: "Installation".to_owned(), env: "ProgramFiles".to_owned(), rel: "nodejs".to_owned() });
        let mut caches: Vec<AppLocation> = Vec::new();
        proof {
            assert(location_views(roots@) =~= seq![AppLocationView { label: "Installation"@, env: "ProgramFiles"@, rel: "nodejs"@ }]);
            assert(location_views(caches@) =~= Seq::empty());
        }
        specs.push(AppSpec { name: "Node.js".to_owned(), roots, caches });
    }
    {
        let mut roots: Vec<AppLocation> = Vec::new();
        roots.push(AppLocation { label: "Cache".to_owned(), env: "LOCALAPPDATA".to_owned(), rel: "npm-cache".to_owned() });
        let mut caches: Vec<AppLocation> = Vec::new();
        caches.push(AppLocation { label: "Cache".to_owned(), env: "LOCALAPPDATA".to_owned(), rel: "npm-cache".to_owned() });
        proof {
            assert(location_views(roots@) =~= seq![AppLocationView { label: "Cache"@, env: "LOCALAPPDATA"@, rel: "npm-cache"@ }]);
            assert(location_views(caches@) =~= seq![AppLocationView { label: "Cache"@, env: "LOCALAPPDATA"@, rel: "npm-cache"@ }]);
        }
        specs.push(AppSpec { name: "npm".to_owned(), roots, caches });
    }
    {
        let mut roots: Vec<AppLocation> = Vec::new();
        roots.push(AppLocation { label: "Store".to_owned(), env: "LOCALAPPDATA".to_owned(), rel: "pnpm".to_owned() });
        let mut caches: Vec<AppLocation> = Vec::new();
        caches.push(AppLocation { label: "Store".to_owned(), env: "LOCALAPPDATA".to_owned(), rel: "pnpm\\store".to_owned() });
        proof {
            assert(location_views(roots@) =~= seq![AppLocationView { label: "Store"@, env: "LOCALAPPDATA"@, rel: "pnpm"@ }]);
            assert(location_views(caches@) =~= seq![AppLocationView { label: "Store"@, env: "LOCALAPPDATA"@, rel: "pnpm\\store"@ }]);
        }
        specs.push(AppSpec { name: "pnpm".to_owned(), roots, caches });
    }
    {
        let mut roots: Vec<AppLocation> = Vec::new();
        roots.push(AppLocation { label: "Cache".to_owned(), env: "LOCALAPPDATA".to_owned(), rel: "Yarn".to_owned() });
        let mut caches: Vec<AppLocation> = Vec::new();
        caches.push(AppLocation { label: "Cache".to_owned(), env: "LOCALAPPDATA".to_owned(), rel: "Yarn\\Cache".to_owned() });
        proof {
            assert(location_views(roots@) =~= seq![AppLocationView { label: "Cache"@, env: "LOCALAPPDATA"@, rel: "Yarn"@ }]);
            assert(location_views(caches@) =~= seq![AppLocationView { label: "Cache"@, env: "LOCALAPPDATA"@, rel: "Yarn\\Cache"@ }]);
        }
        specs.push(AppSpec { name: "Yarn".to_owned(), roots, caches });
    }
    {
        let mut roots: Vec<AppLocation> = Vec::new();
        roots.push(AppLocation { label: "Data".to_owned(), env: "LOCALAPPDATA".to_owned(), rel: "Docker".to_owned() });
        let mut caches: Vec<AppLocation> = Vec::new();
        proof {
            assert(location_views(roots@) =~= seq![AppLocationView { label: "Data"@, env: "LOCALAPPDATA"@, rel: "Docker"@ }]);
            assert(location_views(caches@) =~= Seq::empty());
        }
        specs.push(AppSpec { name: "Docker".to_owned(), roots, caches });
    }
    {
        let mut roots: Vec<AppLocation> = Vec::new();
        roots.push(AppLocation { label: "Data".to_owned(), env: "LOCALAPPDATA".to_owned(), rel: "Google\\AndroidStudio*".to_owned() });
        roots.push(AppLocation { label: "Gradle".to_owned(), env: "USERPROFILE".to_owned(), rel: ".gradle".to_owned() });
        roots.push(AppLocation { label: "SDK / AVD".to_owned(), env: "USERPROFILE".to_owned(), rel: ".android".to_owned() });
        let mut caches: Vec<AppLocation> = Vec::new();
        caches.push(AppLocation { label: "Gradle Caches".to_owned(), env: "USERPROFILE".to_owned(), rel: ".gradle\\caches".to_owned() });
        proof {
            assert(location_views(roots@) =~= seq![AppLocationView { label: "Data"@, env: "LOCALAPPDATA"@, rel: "Google\\AndroidStudio*"@ }, AppLocationView { label: "Gradle"@, env: "USERPROFILE"@, rel: ".gradle"@ }, AppLocationView { label: "SDK / AVD"@, env: "USERPROFILE"@, rel: ".android"@ }]);
            assert(location_views(caches@) =~= seq![AppLocationView { label: "Gradle Caches"@, env: "USERPROFILE"@, rel: ".gradle\\caches"@ }]);
        }
        specs.push(AppSpec { name: "Android Studio".to_owned(), roots, caches });
    }
    {
        let mut roots: Vec<AppLocation> = Vec::new();
        roots.push(AppLocation { label: "Data".to_owned(), env: "LOCALAPPDATA".to_owned(), rel: "JetBrains".to_owned() });
        let mut caches: Vec<AppLocation> = Vec::new();
        caches.push(AppLocation { label: "Caches".to_owned(), env: "LOCALAPPDATA".to_owned(), rel: "JetBrains\\IntelliJIdea*\\caches".to_owned() });
        proof {
            assert(location_views(roots@) =~= seq![AppLocationView { label: "Data"@, env: "LOCALAPPDATA"@, rel: "JetBrains"@ }]);
            assert(location_views(caches@) =~= seq![AppLocationView { label: "Caches"@, env: "LOCALAPPDATA"@, rel: "JetBrains\\IntelliJIdea*\\caches"@ }]);
        }
        specs.push(AppSpec { name: "IntelliJ IDEA".to_owned(), roots, caches });
    }
    {
        let mut roots: Vec<AppLocation> = Vec::new();
        roots.push(AppLocation { label: "Installation".to_owned(), env: "ProgramFiles".to_owned(), rel: "Adobe".to_owned() });
        roots.push(AppLocation { label: "Local Data".to_owned(), env: "LOCALAPPDATA".to_owned(), rel: "Adobe".to_owned() });
        let mut caches: Vec<AppLocation> = Vec::new();
        caches.push(AppLocation { label: "Media Cache Files".to_owned(), env: "APPDATA".to_owned(), rel: "Adobe\\Common\\Media Cache Files".to_owned() });
        caches.push(AppLocation { label: "Media Cache".to_owned(), env: "APPDATA".to_owned(), rel: "Adobe\\Common\\Media Cache".to_owned() });
        proof {
            assert(location_views(roots@) =~= seq![AppLocationView { label: "Installation"@, env: "ProgramFiles"@, rel: "Adobe"@ }, AppLocationView { label: "Local Data"@, env: "LOCALAPPDATA"@, rel: "Adobe"@ }]);
            assert(location_views(caches@) =~= seq![AppLocationView { label: "Media Cache Files"@, env: "APPDATA"@, rel: "Adobe\\Common\\Media Cache Files"@ }, AppLocationView { label: "Media Cache"@, env: "APPDATA"@, rel: "Adobe\\Common\\Media Cache"@ }]);
        }
        specs.push(AppSpec { name: "Adobe Creative Cloud".to_owned(), roots, caches });
    }
    proof {
        assert(app_spec_views(specs@) =~= app_table());
    }
    specs
}

/// What a folder holds: (bytes, files) over everything below it, not
/// following links and leaving out what could not be read. Anything that
/// is not a readable folder holds nothing.
pub open spec fn stats_of(e: Entry) -> (int, int) {
    (dir_tally(e).size, dir_tally(e).files)
}

/// Recursive (bytes, file count) of a folder; skips links, ignores
/// unreadable entries.
pub fn dir_stats(dir: &Entry) -> (r: (u64, u64))
    requires
        fits(*dir),
    ensures
        r.0 == stats_of(*dir).0,
        r.1 == stats_of(*dir).1,
{
    let m = measure_dir(dir);
    (m.size_bytes, m.file_count)
}

/// Recursive size of a folder; skips links, ignores unreadable entries.
pub fn dir_size(dir: &Entry) -> (r: u64)
    requires
        fits(*dir),
    ensures
        r == stats_of(*dir).0,
{
    dir_stats(dir).0
}

/// A location found on disk for an application, with the bytes below it.
pub struct MeasuredLocation {
    pub label: String,
    pub path: String,
    pub bytes: u64,
}

pub struct MeasuredLocationView {
    pub label: Seq<char>,
    pub path: Seq<char>,
    pub bytes: u64,
}

impl View for MeasuredLocation {
    type V = MeasuredLocationView;

    open spec fn view(&self) -> MeasuredLocationView {
        MeasuredLocationView { label: self.label@, path: self.path@, bytes: self.bytes }
    }
}

pub open spec fn measured_location_views(s: Seq<MeasuredLocation>) -> Seq<MeasuredLocationView> {
    s.map_values(|l: MeasuredLocation| l@)
}

/// One line of an application's report.
pub struct AppComponent {
    pub label: String,
    pub path: String,
    pub bytes: u64,
    pub recoverable: bool,
}

pub struct AppComponentView {
    pub label: Seq<char>,
    pub path: Seq<char>,
    pub bytes: u64,
    pub recoverable: bool,
}

impl View for AppComponent {
    type V = AppComponentView;

    open spec fn view(&self) -> AppComponentView {
        AppComponentView { label: self.label@, path: self.path@, bytes: self.bytes, recoverable: self.recoverable }
    }
}

pub open spec fn component_views(s: Seq<AppComponent>) -> Seq<AppComponentView> {
    s.map_values(|c: AppComponent| c@)
}

/// An application's disk use.
pub struct AppReport {
    pub name: String,
    pub total_bytes: u64,
    pub recoverable_bytes: u64,
    pub status: String,
    pub components: Vec<AppComponent>,
}

pub struct AppReportView {
    pub name: Seq<char>,
    pub total_bytes: u64,
    pub recoverable_bytes: u64,
    pub status: Seq<char>,
    pub components: Seq<AppComponentView>,
}

impl View for AppReport {
    type V = AppReportView;

    open spec fn view(&self) -> AppReportView {
        AppReportView {
            name: self.name@,
            total_bytes: self.total_bytes,
            recoverable_bytes: self.recoverable_bytes,
            status: self.status@,
            components: component_views(self.components@),
        }
    }
}

/// The bytes below the locations together.
pub open spec fn location_bytes(s: Seq<MeasuredLocationView>) -> int
    decreases s.len(),
{
    if s.len() == 0 {
        0
    } else {
        location_bytes(s.drop_last()) + s.last().bytes
    }
}

/// Whether a path lies within one of the data folders.
pub open spec fn inside_roots(path: Seq<char>, roots: Seq<MeasuredLocationView>) -> bool {
    exists|j: int| 0 <= j < roots.len() && path_within(path, #[trigger] roots[j].path)
}

/// The bytes of the caches that lie within no data folder.
pub open spec fn outside_bytes(caches: Seq<MeasuredLocationView>, roots: Seq<MeasuredLocationView>) -> int
    decreases caches.len(),
{
    if caches.len() == 0 {
        0
    } else {
        outside_bytes(caches.drop_last(), roots) + if inside_roots(caches.last().path, roots) {
            0
        } else {
            caches.last().bytes as int
        }
    }
}

pub open spec fn as_component(l: MeasuredLocationView, recoverable: bool) -> AppComponentView {
    AppComponentView { label: l.label, path: l.path, bytes: l.bytes, recoverable }
}

/// The report for an application whose data folders and caches were found
/// and measured: none when no data folder was found; else the total (data
/// folders plus the caches outside them), the recoverable bytes (the caches,
/// at most the total), and one line per folder, data folders first.
pub open spec fn app_report_spec(
    name: Seq<char>,
    roots: Seq<MeasuredLocationView>,
    caches: Seq<MeasuredLocationView>,
) -> Option<AppReportView> {
    if roots.len() == 0 {
        None
    } else {
        let total = location_bytes(roots) + outside_bytes(caches, roots);
        let recoverable = location_bytes(caches);
        Some(
            AppReportView {
                name,
                total_bytes: total as u64,
                recoverable_bytes: (if recoverable < total {
                    recoverable
                } else {
                    total
                }) as u64,
                status: "analyzed"@,
                components: roots.map_values(|l: MeasuredLocationView| as_component(l, false))
                    + caches.map_values(|l: MeasuredLocationView| as_component(l, true)),
            },
        )
    }
}

pub open spec fn report_option_view(r: Option<AppReport>) -> Option<AppReportView> {
    match r {
        Some(r) => Some(r@),
        None => None,
    }
}

proof fn lemma_location_prefix(s: Seq<MeasuredLocationView>, k: int)
    requires
        0 <= k <= s.len(),
    ensures
        0 <= location_bytes(s.take(k)) <= location_bytes(s),
    decreases s.len() - k,
{
    if k < s.len() {
        lemma_location_prefix(s, k + 1);
        assert(s.take(k + 1).drop_last() =~= s.take(k));
    } else {
        assert(s.take(k) =~= s);
    }
    lemma_location_nonneg(s.take(k));
}

proof fn lemma_location_nonneg(s: Seq<MeasuredLocationView>)
    ensures
        location_bytes(s) >= 0,
    decreases s.len(),
{
    if s.len() > 0 {
        lemma_location_nonneg(s.drop_last());
    }
}

proof fn lemma_outside_prefix(s: Seq<MeasuredLocationView>, roots: Seq<MeasuredLocationView>, k: int)
    requires
        0 <= k <= s.len(),
    ensures
        0 <= outside_bytes(s.take(k), roots) <= outside_bytes(s, roots),
    decreases s.len() - k,
{
    if k < s.len() {
        lemma_outside_prefix(s, roots, k + 1);
        assert(s.take(k + 1).drop_last() =~= s.take(k));
    } else {
        assert(s.take(k) =~= s);
    }
    lemma_outside_nonneg(s.take(k), roots);
}

proof fn lemma_outside_nonneg(s: Seq<MeasuredLocationView>, roots: Seq<MeasuredLocationView>)
    ensures
        outside_bytes(s, roots) >= 0,
    decreases s.len(),
{
    if s.len() > 0 {
        lemma_outside_nonneg(s.drop_last(), roots);
    }
}

/// Whether a path lies within one of the data folders.
fn is_inside_roots(path: &str, roots: &Vec<MeasuredLocation>) -> (b: bool)
    ensures
        b == inside_roots(path@, measured_location_views(roots@)),
{
    let ghost rv = measured_location_views(roots@);
    let mut i: usize = 0;
    while i < roots.len()
        invariant
            i <= roots@.len(),
            rv == measured_location_views(roots@),
            forall|j: int| 0 <= j < i ==> !path_within(path@, #[trigger] rv[j].path),
        decreases roots@.len() - i,
    {
        if path_starts_with(path, roots[i].path.as_str()) {
            proof {
                assert(path_within(path@, rv[i as int].path));
            }
            return true;
        }
        i = i + 1;
    }
    false
}

/// The report for an application from its data folders and caches as found
/// and measured on disk.
pub fn app_report(name: &str, roots: &Vec<MeasuredLocation>, caches: &Vec<MeasuredLocation>) -> (r: Option<AppReport>)
    requires
        location_bytes(measured_location_views(roots@)) + outside_bytes(
            measured_location_views(caches@),
            measured_location_views(roots@),
        ) <= u64::MAX,
        location_bytes(measured_location_views(caches@)) <= u64::MAX,
    ensures
        report_option_view(r) == app_report_spec(
            name@,
            measured_location_views(roots@),
            measured_location_views(caches@),
        ),
{
    let ghost rv = measured_location_views(roots@);
    let ghost cv = measured_location_views(caches@);
    if roots.len() == 0 {
        return None;
    }
    let mut components: Vec<AppComponent> = Vec::new();
    let mut total: u64 = 0;
    let mut i: usize = 0;
    proof {
        lemma_outside_nonneg(cv, rv);
        lemma_location_nonneg(cv);
    }
    while i < roots.len()
        invariant
            i <= roots@.len(),
            rv == measured_location_views(roots@),
            cv == measured_location_views(caches@),
            location_bytes(rv) + outside_bytes(cv, rv) <= u64::MAX,
            outside_bytes(cv, rv) >= 0,
            total == location_bytes(rv.take(i as int)),
            component_views(components@) == rv.take(i as int).map_values(
                |l: MeasuredLocationView| as_component(l, false),
            ),
        decreases roots@.len() - i,
    {
        let l = &roots[i];
        proof {
            assert(rv.take(i + 1).drop_last() =~= rv.take(i as int));
            assert(rv.take(i + 1).last() == l@);
            lemma_location_prefix(rv, i + 1);
        }
        total = total + l.bytes;
        let ghost prev = component_views(components@);
        components.push(AppComponent { label: l.label.clone(), path: l.path.clone(), bytes: l.bytes, recoverable: false });
        proof {
            assert(component_views(components@) =~= prev.push(as_component(l@, false)));
            assert(rv.take(i + 1).map_values(|l: MeasuredLocationView| as_component(l, false)) =~= rv.take(
                i as int,
            ).map_values(|l: MeasuredLocationView| as_component(l, false)).push(as_component(l@, false)));
        }
        i = i + 1;
    }
    proof {
        assert(rv.take(roots@.len() as int) =~= rv);
    }
    let ghost root_part = component_views(components@);
    let mut recoverable: u64 = 0;
    let mut outside: u64 = 0;
    let mut k: usize = 0;
    while k < caches.len()
        invariant
            k <= caches@.len(),
            rv == measured_location_views(roots@),
            cv == measured_location_views(caches@),
            total == location_bytes(rv),
            location_bytes(rv) + outside_bytes(cv, rv) <= u64::MAX,
            location_bytes(cv) <= u64::MAX,
            recoverable == location_bytes(cv.take(k as int)),
            outside == outside_bytes(cv.take(k as int), rv),
            component_views(components@) == root_part + cv.take(k as int).map_values(
                |l: MeasuredLocationView| as_component(l, true),
            ),
        decreases caches@.len() - k,
    {
        let l = &caches[k];
        proof {
            assert(cv.take(k + 1).drop_last() =~= cv.take(k as int));
            assert(cv.take(k + 1).last() == l@);
            lemma_location_prefix(cv, k + 1);
            lemma_outside_prefix(cv, rv, k + 1);
        }
        recoverable = recoverable + l.bytes;
        if !is_inside_roots(l.path.as_str(), roots) {
            outside = outside + l.bytes;
        }
        let ghost prev = component_views(components@);
        components.push(AppComponent { label: l.label.clone(), path: l.path.clone(), bytes: l.bytes, recoverable: true });
        proof {
            assert(component_views(components@) =~= prev.push(as_component(l@, true)));
            assert(cv.take(k + 1).map_values(|l: MeasuredLocationView| as_component(l, true)) =~= cv.take(
                k as int,
            ).map_values(|l: MeasuredLocationView| as_component(l, true)).push(as_component(l@, true)));
        }
        k = k + 1;
    }
    proof {
        assert(cv.take(caches@.len() as int) =~= cv);
    }
    let all = total + outside;
    let shown = if recoverable < all {
        recoverable
    } else {
        all
    };
    Some(
        AppReport {
            name: name.to_owned(),
            total_bytes: all,
            recoverable_bytes: shown,
            status: "analyzed".to_owned(),
            components,
        },
    )
}

} // verus!
