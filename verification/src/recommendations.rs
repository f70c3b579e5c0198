//! Cleanup recommendations: the well-known caches and temporary folders
//! worth clearing, how much each holds, and old installers left in
//! Downloads.
use vstd::prelude::*;
use crate::text::{chars_of, decimal, decimal_string, eq_chars, push_str, string_of};

verus! {

/// Installers not modified for this many days count as old.
pub const OLD_INSTALLER_DAYS: i64 = 180;

/// A folder the system names through an environment variable.
#[derive(PartialEq, Eq, Structural, Clone, Copy)]
pub enum EnvFolder {
    /// `%LOCALAPPDATA%`
    LocalAppData,
    /// `%ProgramData%`
    ProgramData,
    /// `%SystemRoot%`, or `C:\Windows` when it is not set.
    SystemRoot,
    /// `%TEMP%`
    Temp,
    /// `%APPDATA%`
    AppData,
    /// `%USERPROFILE%`
    UserProfile,
}

/// Where a recommendation looks.
pub enum PathSource {
    /// The folder itself.
    Folder { base: EnvFolder },
    /// A path below the folder.
    Under { base: EnvFolder, rel: String },
    /// Every existing path below the folder matching a pattern with one `*`
    /// segment.
    Pattern { base: EnvFolder, rel: String },
    /// A fixed path.
    Fixed { path: String },
    /// Every drive's `$Recycle.Bin`.
    RecycleBins,
}

pub enum PathSourceView {
    Folder { base: EnvFolder },
    Under { base: EnvFolder, rel: Seq<char> },
    Pattern { base: EnvFolder, rel: Seq<char> },
    Fixed { path: Seq<char> },
    RecycleBins,
}

impl View for PathSource {
    type V = PathSourceView;

    open spec fn view(&self) -> PathSourceView {
        match self {
            PathSource::Folder { base } => PathSourceView::Folder { base: *base },
            PathSource::Under { base, rel } => PathSourceView::Under { base: *base, rel: rel@ },
            PathSource::Pattern { base, rel } => PathSourceView::Pattern { base: *base, rel: rel@ },
            PathSource::Fixed { path } => PathSourceView::Fixed { path: path@ },
            PathSource::RecycleBins => PathSourceView::RecycleBins,
        }
    }
}

/// A cleanup target: what it is, how risky clearing it is, whether it is
/// recommended, and where it lives.
pub struct CandidateSpec {
    pub id: String,
    pub name: String,
    pub description: String,
    pub risk: String,
    pub recommended: bool,
    pub sources: Vec<PathSource>,
}

pub struct CandidateSpecView {
    pub id: Seq<char>,
    pub name: Seq<char>,
    pub description: Seq<char>,
    pub risk: Seq<char>,
    pub recommended: bool,
    pub sources: Seq<PathSourceView>,
}

impl View for CandidateSpec {
    type V = CandidateSpecView;

    open spec fn view(&self) -> CandidateSpecView {
        CandidateSpecView {
            id: self.id@,
            name: self.name@,
            description: self.description@,
            risk: self.risk@,
            recommended: self.recommended,
            sources: self.sources@.map_values(|s: PathSource| s@),
        }
    }
}

pub open spec fn spec_views(s: Seq<CandidateSpec>) -> Seq<CandidateSpecView> {
    s.map_values(|c: CandidateSpec| c@)
}

pub open spec fn candidate_table() -> Seq<CandidateSpecView> {
    seq![
        CandidateSpecView {
            id: "windows-temp"@,
            name: "Temporary Files"@,
            description: "Temporary files created by Windows and applications. They are recreated automatically when needed."@,
            risk: "low"@,
            recommended: true,
            sources: seq![PathSourceView::Folder { base: EnvFolder::Temp }, PathSourceView::Under { base: EnvFolder::SystemRoot, rel: "Temp"@ }],
        },
        CandidateSpecView {
            id: "chrome-cache"@,
            name: "Chrome Browser Cache"@,
            description: "Web cache that Chrome rebuilds automatically while browsing."@,
            risk: "low"@,
            recommended: true,
            sources: seq![PathSourceView::Under { base: EnvFolder::LocalAppData, rel: "Google\\Chrome\\User Data\\Default\\Cache"@ }, PathSourceView::Under { base: EnvFolder::LocalAppData, rel: "Google\\Chrome\\User Data\\Default\\Code Cache"@ }, PathSourceView::Under { base: EnvFolder::LocalAppData, rel: "Google\\Chrome\\User Data\\Default\\GPUCache"@ }],
        },
        CandidateSpecView {
            id: "edge-cache"@,
            name: "Edge Browser Cache"@,
            description: "Web cache that Microsoft Edge rebuilds automatically while browsing."@,
            risk: "low"@,
            recommended: true,
            sources: seq![PathSourceView::Under { base: EnvFolder::LocalAppData, rel: "Microsoft\\Edge\\User Data\\Default\\Cache"@ }, PathSourceView::Under { base: EnvFolder::LocalAppData, rel: "Microsoft\\Edge\\User Data\\Default\\Code Cache"@ }],
        },
        CandidateSpecView {
            id: "firefox-cache"@,
            name: "Firefox Browser Cache"@,
            description: "Web cache that Firefox rebuilds automatically while browsing."@,
            risk: "low"@,
            recommended: true,
            sources: seq![PathSourceView::Pattern { base: EnvFolder::LocalAppData, rel: "Mozilla\\Firefox\\Profiles\\*\\cache2"@ }],
        },
        CandidateSpecView {
            id: "discord-cache"@,
            name: "Discord Cache"@,
            description: "Images, video previews and code cached by Discord. Rebuilt automatically."@,
            risk: "low"@,
            recommended: true,
            sources: seq![PathSourceView::Under { base: EnvFolder::AppData, rel: "discord\\Cache"@ }, PathSourceView::Under { base: EnvFolder::AppData, rel: "discord\\Code Cache"@ }, PathSourceView::Under { base: EnvFolder::AppData, rel: "discord\\GPUCache"@ }],
        },
        CandidateSpecView {
            id: "vscode-cache"@,
            name: "VS Code Cache"@,
            description: "Editor caches that VS Code rebuilds automatically on next launch."@,
            risk: "low"@,
            recommended: true,
            sources: seq![PathSourceView::Under { base: EnvFolder::AppData, rel: "Code\\Cache"@ }, PathSourceView::Under { base: EnvFolder::AppData, rel: "Code\\CachedData"@ }, PathSourceView::Under { base: EnvFolder::AppData, rel: "Code\\Code Cache"@ }],
        },
        CandidateSpecView {
            id: "crash-dumps"@,
            name: "Crash Dumps"@,
            description: "Memory snapshots saved when programs crashed. Only useful for debugging past crashes."@,
            risk: "low"@,
            recommended: true,
            sources: seq![PathSourceView::Under { base: EnvFolder::LocalAppData, rel: "CrashDumps"@ }, PathSourceView::Under { base: EnvFolder::SystemRoot, rel: "Minidump"@ }, PathSourceView::Under { base: EnvFolder::SystemRoot, rel: "LiveKernelReports"@ }],
        },
        CandidateSpecView {
            id: "windows-logs"@,
            name: "Windows Log Files"@,
            description: "Diagnostic logs Windows keeps for troubleshooting. Not needed for normal use; removing system logs requires administrator rights."@,
            risk: "low"@,
            recommended: true,
            sources: seq![PathSourceView::Under { base: EnvFolder::SystemRoot, rel: "Logs"@ }],
        },
        CandidateSpecView {
            id: "delivery-optimization"@,
            name: "Delivery Optimization Cache"@,
            description: "Pieces of Windows updates kept for sharing between PCs. Windows clears this automatically when space runs low."@,
            risk: "low"@,
            recommended: true,
            sources: seq![PathSourceView::Under { base: EnvFolder::ProgramData, rel: "Microsoft\\Windows\\DeliveryOptimization"@ }],
        },
        CandidateSpecView {
            id: "windows-old"@,
            name: "Previous Windows Installation"@,
            description: "Your previous Windows version, kept so you can roll back after an upgrade. Removing it (via Disk Cleanup, requires admin) makes rollback impossible."@,
            risk: "medium"@,
            recommended: false,
            sources: seq![PathSourceView::Fixed { path: "C:\\Windows.old"@ }],
        },
        CandidateSpecView {
            id: "recycle-bin"@,
            name: "Recycle Bin"@,
            description: "Files you already deleted, held for recovery. Emptying the Recycle Bin permanently removes them."@,
            risk: "low"@,
            recommended: true,
            sources: seq![PathSourceView::RecycleBins],
        },
        CandidateSpecView {
            id: "gradle-cache"@,
            name: "Gradle Cache"@,
            description: "Build cache and downloaded dependencies used by Gradle / Android Studio. Re-downloaded on demand."@,
            risk: "low"@,
            recommended: true,
            sources: seq![PathSourceView::Under { base: EnvFolder::UserProfile, rel: ".gradle\\caches"@ }],
        },
        CandidateSpecView {
            id: "npm-cache"@,
            name: "npm Cache"@,
            description: "Package cache used by npm. Packages are re-downloaded on demand."@,
            risk: "low"@,
            recommended: true,
            sources: seq![PathSourceView::Under { base: EnvFolder::LocalAppData, rel: "npm-cache"@ }],
        },
        CandidateSpecView {
            id: "yarn-cache"@,
            name: "Yarn Cache"@,
            description: "Package cache used by Yarn. Packages are re-downloaded on demand."@,
            risk: "low"@,
            recommended: true,
            sources: seq![PathSourceView::Under { base: EnvFolder::LocalAppData, rel: "Yarn\\Cache"@ }],
        },
        CandidateSpecView {
            id: "nvidia-shader-cache"@,
            name: "NVIDIA Shader Cache"@,
            description: "Graphics shader cache that Windows recreates automatically."@,
            risk: "low"@,
            recommended: true,
            sources: seq![PathSourceView::Under { base: EnvFolder::LocalAppData, rel: "NVIDIA\\DXCache"@ }, PathSourceView::Under { base: EnvFolder::LocalAppData, rel: "NVIDIA\\GLCache"@ }, PathSourceView::Under { base: EnvFolder::ProgramData, rel: "NVIDIA Corporation\\NV_Cache"@ }],
        },
        CandidateSpecView {
            id: "directx-shader-cache"@,
            name: "DirectX Shader Cache"@,
            description: "Compiled shader cache managed by Windows. Rebuilt automatically by games and apps."@,
            risk: "low"@,
            recommended: true,
            sources: seq![PathSourceView::Under { base: EnvFolder::LocalAppData, rel: "D3DSCache"@ }],
        },
        CandidateSpecView {
            id: "explorer-thumbnails"@,
            name: "Thumbnail Cache"@,
            description: "Image and video thumbnails cached by Windows Explorer. Regenerated when folders are viewed."@,
            risk: "low"@,
            recommended: true,
            sources: seq![PathSourceView::Under { base: EnvFolder::LocalAppData, rel: "Microsoft\\Windows\\Explorer"@ }],
        },
        CandidateSpecView {
            id: "windows-update-cache"@,
            name: "Windows Update Download Cache"@,
            description: "Already-installed update packages kept by Windows Update. Removing them is safe once updates are complete, but requires administrator rights."@,
            risk: "medium"@,
            recommended: false,
            sources: seq![PathSourceView::Under { base: EnvFolder::SystemRoot, rel: "SoftwareDistribution\\Download"@ }],
        },
        CandidateSpecView {
            id: "adobe-media-cache"@,
            name: "Adobe Media Cache"@,
            description: "Preview and conform files created by Premiere Pro and After Effects. Regenerated when projects are opened."@,
            risk: "low"@,
            recommended: true,
            sources: seq![PathSourceView::Under { base: EnvFolder::AppData, rel: "Adobe\\Common\\Media Cache Files"@ }, PathSourceView::Under { base: EnvFolder::AppData, rel: "Adobe\\Common\\Media Cache"@ }],
        },
    ]
}

/// The cleanup targets recommendations are built from, in the order they
/// are offered.
pub fn candidate_specs() -> (r: Vec<CandidateSpec>)
    ensures
        spec_views(r@) == candidate_table(),
{
    let mut specs: Vec<CandidateSpec> = Vec::new();
    {
        let mut sources: Vec<PathSource> = Vec::new();
        sources.push(PathSource::Folder { base: EnvFolder::Temp });
        sources.push(PathSource::Under { base: EnvFolder::SystemRoot, rel: "Temp".to_owned() });
        proof {
            assert(sources@.map_values(|s: PathSource| s@) =~= seq![PathSourceView::Folder { base: EnvFolder::Temp }, PathSourceView::Under { base: EnvFolder::SystemRoot, rel: "Temp"@ }]);
        }
        specs.push(CandidateSpec {
            id: "windows-temp".to_owned(),
            name: "Temporary Files".to_owned(),
            description: "Temporary files created by Windows and applications. They are recreated automatically when needed.".to_owned(),
            risk: "low".to_owned(),
            recommended: true,
            sources,
        });
    }
    {
        let mut sources: Vec<PathSource> = Vec::new();
        sources.push(PathSource::Under { base: EnvFolder::LocalAppData, rel: "Google\\Chrome\\User Data\\Default\\Cache".to_owned() });
        sources.push(PathSource::Under { base: EnvFolder::LocalAppData, rel: "Google\\Chrome\\User Data\\Default\\Code Cache".to_owned() });
        sources.push(PathSource::Under { base: EnvFolder::LocalAppData, rel: "Google\\Chrome\\User Data\\Default\\GPUCache".to_owned() });
        proof {
            assert(sources@.map_values(|s: PathSource| s@) =~= seq![PathSourceView::Under { base: EnvFolder::LocalAppData, rel: "Google\\Chrome\\User Data\\Default\\Cache"@ }, PathSourceView::Under { base: EnvFolder::LocalAppData, rel: "Google\\Chrome\\User Data\\Default\\Code Cache"@ }, PathSourceView::Under { base: EnvFolder::LocalAppData, rel: "Google\\Chrome\\User Data\\Default\\GPUCache"@ }]);
        }
        specs.push(CandidateSpec {
            id: "chrome-cache".to_owned(),
            name: "Chrome Browser Cache".to_owned(),
            description: "Web cache that Chrome rebuilds automatically while browsing.".to_owned(),
            risk: "low".to_owned(),
            recommended: true,
            sources,
        });
    }
    {
        let mut sources: Vec<PathSource> = Vec::new();
        sources.push(PathSource::Under { base: EnvFolder::LocalAppData, rel: "Microsoft\\Edge\\User Data\\Default\\Cache".to_owned() });
        sources.push(PathSource::Under { base: EnvFolder::LocalAppData, rel: "Microsoft\\Edge\\User Data\\Default\\Code Cache".to_owned() });
        proof {
            assert(sources@.map_values(|s: PathSource| s@) =~= seq![PathSourceView::Under { base: EnvFolder::LocalAppData, rel: "Microsoft\\Edge\\User Data\\Default\\Cache"@ }, PathSourceView::Under { base: EnvFolder::LocalAppData, rel: "Microsoft\\Edge\\User Data\\Default\\Code Cache"@ }]);
        }
        specs.push(CandidateSpec {
            id: "edge-cache".to_owned(),
            name: "Edge Browser Cache".to_owned(),
            description: "Web cache that Microsoft Edge rebuilds automatically while browsing.".to_owned(),
            risk: "low".to_owned(),
            recommended: true,
            sources,
        });
    }
    {
        let mut sources: Vec<PathSource> = Vec::new();
        sources.push(PathSource::Pattern { base: EnvFolder::LocalAppData, rel: "Mozilla\\Firefox\\Profiles\\*\\cache2".to_owned() });
        proof {
            assert(sources@.map_values(|s: PathSource| s@) =~= seq![PathSourceView::Pattern { base: EnvFolder::LocalAppData, rel: "Mozilla\\Firefox\\Profiles\\*\\cache2"@ }]);
        }
        specs.push(CandidateSpec {
            id: "firefox-cache".to_owned(),
            name: "Firefox Browser Cache".to_owned(),
            description: "Web cache that Firefox rebuilds automatically while browsing.".to_owned(),
            risk: "low".to_owned(),
            recommended: true,
            sources,
        });
    }
    {
        let mut sources: Vec<PathSource> = Vec::new();
        sources.push(PathSource::Under { base: EnvFolder::AppData, rel: "discord\\Cache".to_owned() });
        sources.push(PathSource::Under { base: EnvFolder::AppData, rel: "discord\\Code Cache".to_owned() });
        sources.push(PathSource::Under { base: EnvFolder::AppData, rel: "discord\\GPUCache".to_owned() });
        proof {
            assert(sources@.map_values(|s: PathSource| s@) =~= seq![PathSourceView::Under { base: EnvFolder::AppData, rel: "discord\\Cache"@ }, PathSourceView::Under { base: EnvFolder::AppData, rel: "discord\\Code Cache"@ }, PathSourceView::Under { base: EnvFolder::AppData, rel: "discord\\GPUCache"@ }]);
        }
        specs.push(CandidateSpec {
            id: "discord-cache".to_owned(),
            name: "Discord Cache".to_owned(),
            description: "Images, video previews and code cached by Discord. Rebuilt automatically.".to_owned(),
            risk: "low".to_owned(),
            recommended: true,
            sources,
        });
    }
    {
        let mut sources: Vec<PathSource> = Vec::new();
        sources.push(PathSource::Under { base: EnvFolder::AppData, rel: "Code\\Cache".to_owned() });
        sources.push(PathSource::Under { base: EnvFolder::AppData, rel: "Code\\CachedData".to_owned() });
        sources.push(PathSource::Under { base: EnvFolder::AppData, rel: "Code\\Code Cache".to_owned() });
        proof {
            assert(sources@.map_values(|s: PathSource| s@) =~= seq![PathSourceView::Under { base: EnvFolder::AppData, rel: "Code\\Cache"@ }, PathSourceView::Under { base: EnvFolder::AppData, rel: "Code\\CachedData"@ }, PathSourceView::Under { base: EnvFolder::AppData, rel: "Code\\Code Cache"@ }]);
        }
        specs.push(CandidateSpec {
            id: "vscode-cache".to_owned(),
            name: "VS Code Cache".to_owned(),
            description: "Editor caches that VS Code rebuilds automatically on next launch.".to_owned(),
            risk: "low".to_owned(),
            recommended: true,
            sources,
        });
    }
    {
        let mut sources: Vec<PathSource> = Vec::new();
        sources.push(PathSource::Under { base: EnvFolder::LocalAppData, rel: "CrashDumps".to_owned() });
        sources.push(PathSource::Under { base: EnvFolder::SystemRoot, rel: "Minidump".to_owned() });
        sources.push(PathSource::Under { base: EnvFolder::SystemRoot, rel: "LiveKernelReports".to_owned() });
        proof {
            assert(sources@.map_values(|s: PathSource| s@) =~= seq![PathSourceView::Under { base: EnvFolder::LocalAppData, rel: "CrashDumps"@ }, PathSourceView::Under { base: EnvFolder::SystemRoot, rel: "Minidump"@ }, PathSourceView::Under { base: EnvFolder::SystemRoot, rel: "LiveKernelReports"@ }]);
        }
        specs.push(CandidateSpec {
            id: "crash-dumps".to_owned(),
            name: "Crash Dumps".to_owned(),
            description: "Memory snapshots saved when programs crashed. Only useful for debugging past crashes.".to_owned(),
            risk: "low".to_owned(),
            recommended: true,
            sources,
        });
    }
    {
        let mut sources: Vec<PathSource> = Vec::new();
        sources.push(PathSource::Under { base: EnvFolder::SystemRoot, rel: "Logs".to_owned() });
        proof {
            assert(sources@.map_values(|s: PathSource| s@) =~= seq![PathSourceView::Under { base: EnvFolder::SystemRoot, rel: "Logs"@ }]);
        }
        specs.push(CandidateSpec {
            id: "windows-logs".to_owned(),
            name: "Windows Log Files".to_owned(),
            description: "Diagnostic logs Windows keeps for troubleshooting. Not needed for normal use; removing system logs requires administrator rights.".to_owned(),
            risk: "low".to_owned(),
            recommended: true,
            sources,
        });
    }
    {
        let mut sources: Vec<PathSource> = Vec::new();
        sources.push(PathSource::Under { base: EnvFolder::ProgramData, rel: "Microsoft\\Windows\\DeliveryOptimization".to_owned() });
        proof {
            assert(sources@.map_values(|s: PathSource| s@) =~= seq![PathSourceView::Under { base: EnvFolder::ProgramData, rel: "Microsoft\\Windows\\DeliveryOptimization"@ }]);
        }
        specs.push(CandidateSpec {
            id: "delivery-optimization".to_owned(),
            name: "Delivery Optimization Cache".to_owned(),
            description: "Pieces of Windows updates kept for sharing between PCs. Windows clears this automatically when space runs low.".to_owned(),
            risk: "low".to_owned(),
            recommended: true,
            sources,
        });
    }
    {
        let mut sources: Vec<PathSource> = Vec::new();
        sources.push(PathSource::Fixed { path: "C:\\Windows.old".to_owned() });
        proof {
            assert(sources@.map_values(|s: PathSource| s@) =~= seq![PathSourceView::Fixed { path: "C:\\Windows.old"@ }]);
        }
        specs.push(CandidateSpec {
            id: "windows-old".to_owned(),
            name: "Previous Windows Installation".to_owned(),
            description: "Your previous Windows version, kept so you can roll back after an upgrade. Removing it (via Disk Cleanup, requires admin) makes rollback impossible.".to_owned(),
            risk: "medium".to_owned(),
            recommended: false,
            sources,
        });
    }
    {
        let mut sources: Vec<PathSource> = Vec::new();
        sources.push(PathSource::RecycleBins);
        proof {
            assert(sources@.map_values(|s: PathSource| s@) =~= seq![PathSourceView::RecycleBins]);
        }
        specs.push(CandidateSpec {
            id: "recycle-bin".to_owned(),
            name: "Recycle Bin".to_owned(),
            description: "Files you already deleted, held for recovery. Emptying the Recycle Bin permanently removes them.".to_owned(),
            risk: "low".to_owned(),
            recommended: true,
            sources,
        });
    }
    {
        let mut sources: Vec<PathSource> = Vec::new();
        sources.push(PathSource::Under { base: EnvFolder::UserProfile, rel: ".gradle\\caches".to_owned() });
        proof {
            assert(sources@.map_values(|s: PathSource| s@) =~= seq![PathSourceView::Under { base: EnvFolder::UserProfile, rel: ".gradle\\caches"@ }]);
        }
        specs.push(CandidateSpec {
            id: "gradle-cache".to_owned(),
            name: "Gradle Cache".to_owned(),
            description: "Build cache and downloaded dependencies used by Gradle / Android Studio. Re-downloaded on demand.".to_owned(),
            risk: "low".to_owned(),
            recommended: true,
            sources,
        });
    }
    {
        let mut sources: Vec<PathSource> = Vec::new();
        sources.push(PathSource::Under { base: EnvFolder::LocalAppData, rel: "npm-cache".to_owned() });
        proof {
            assert(sources@.map_values(|s: PathSource| s@) =~= seq![PathSourceView::Under { base: EnvFolder::LocalAppData, rel: "npm-cache"@ }]);
        }
        specs.push(CandidateSpec {
            id: "npm-cache".to_owned(),
            name: "npm Cache".to_owned(),
            description: "Package cache used by npm. Packages are re-downloaded on demand.".to_owned(),
            risk: "low".to_owned(),
            recommended: true,
            sources,
        });
    }
    {
        let mut sources: Vec<PathSource> = Vec::new();
        sources.push(PathSource::Under { base: EnvFolder::LocalAppData, rel: "Yarn\\Cache".to_owned() });
        proof {
            assert(sources@.map_values(|s: PathSource| s@) =~= seq![PathSourceView::Under { base: EnvFolder::LocalAppData, rel: "Yarn\\Cache"@ }]);
        }
        specs.push(CandidateSpec {
            id: "yarn-cache".to_owned(),
            name: "Yarn Cache".to_owned(),
            description: "Package cache used by Yarn. Packages are re-downloaded on demand.".to_owned(),
            risk: "low".to_owned(),
            recommended: true,
            sources,
        });
    }
    {
        let mut sources: Vec<PathSource> = Vec::new();
        sources.push(PathSource::Under { base: EnvFolder::LocalAppData, rel: "NVIDIA\\DXCache".to_owned() });
        sources.push(PathSource::Under { base: EnvFolder::LocalAppData, rel: "NVIDIA\\GLCache".to_owned() });
        sources.push(PathSource::Under { base: EnvFolder::ProgramData, rel: "NVIDIA Corporation\\NV_Cache".to_owned() });
        proof {
            assert(sources@.map_values(|s: PathSource| s@) =~= seq![PathSourceView::Under { base: EnvFolder::LocalAppData, rel: "NVIDIA\\DXCache"@ }, PathSourceView::Under { base: EnvFolder::LocalAppData, rel: "NVIDIA\\GLCache"@ }, PathSourceView::Under { base: EnvFolder::ProgramData, rel: "NVIDIA Corporation\\NV_Cache"@ }]);
        }
        specs.push(CandidateSpec {
            id: "nvidia-shader-cache".to_owned(),
            name: "NVIDIA Shader Cache".to_owned(),
            description: "Graphics shader cache that Windows recreates automatically.".to_owned(),
            risk: "low".to_owned(),
            recommended: true,
            sources,
        });
    }
    {
        let mut sources: Vec<PathSource> = Vec::new();
        sources.push(PathSource::Under { base: EnvFolder::LocalAppData, rel: "D3DSCache".to_owned() });
        proof {
            assert(sources@.map_values(|s: PathSource| s@) =~= seq![PathSourceView::Under { base: EnvFolder::LocalAppData, rel: "D3DSCache"@ }]);
        }
        specs.push(CandidateSpec {
            id: "directx-shader-cache".to_owned(),
            name: "DirectX Shader Cache".to_owned(),
            description: "Compiled shader cache managed by Windows. Rebuilt automatically by games and apps.".to_owned(),
            risk: "low".to_owned(),
            recommended: true,
            sources,
        });
    }
    {
        let mut sources: Vec<PathSource> = Vec::new();
        sources.push(PathSource::Under { base: EnvFolder::LocalAppData, rel: "Microsoft\\Windows\\Explorer".to_owned() });
        proof {
            assert(sources@.map_values(|s: PathSource| s@) =~= seq![PathSourceView::Under { base: EnvFolder::LocalAppData, rel: "Microsoft\\Windows\\Explorer"@ }]);
        }
        specs.push(CandidateSpec {
            id: "explorer-thumbnails".to_owned(),
            name: "Thumbnail Cache".to_owned(),
            description: "Image and video thumbnails cached by Windows Explorer. Regenerated when folders are viewed.".to_owned(),
            risk: "low".to_owned(),
            recommended: true,
            sources,
        });
    }
    {
        let mut sources: Vec<PathSource> = Vec::new();
        sources.push(PathSource::Under { base: EnvFolder::SystemRoot, rel: "SoftwareDistribution\\Download".to_owned() });
        proof {
            assert(sources@.map_values(|s: PathSource| s@) =~= seq![PathSourceView::Under { base: EnvFolder::SystemRoot, rel: "SoftwareDistribution\\Download"@ }]);
        }
        specs.push(CandidateSpec {
            id: "windows-update-cache".to_owned(),
            name: "Windows Update Download Cache".to_owned(),
            description: "Already-installed update packages kept by Windows Update. Removing them is safe once updates are complete, but requires administrator rights.".to_owned(),
            risk: "medium".to_owned(),
            recommended: false,
            sources,
        });
    }
    {
        let mut sources: Vec<PathSource> = Vec::new();
        sources.push(PathSource::Under { base: EnvFolder::AppData, rel: "Adobe\\Common\\Media Cache Files".to_owned() });
        sources.push(PathSource::Under { base: EnvFolder::AppData, rel: "Adobe\\Common\\Media Cache".to_owned() });
        proof {
            assert(sources@.map_values(|s: PathSource| s@) =~= seq![PathSourceView::Under { base: EnvFolder::AppData, rel: "Adobe\\Common\\Media Cache Files"@ }, PathSourceView::Under { base: EnvFolder::AppData, rel: "Adobe\\Common\\Media Cache"@ }]);
        }
        specs.push(CandidateSpec {
            id: "adobe-media-cache".to_owned(),
            name: "Adobe Media Cache".to_owned(),
            description: "Preview and conform files created by Premiere Pro and After Effects. Regenerated when projects are opened.".to_owned(),
            risk: "low".to_owned(),
            recommended: true,
            sources,
        });
    }
    proof {
        assert(spec_views(specs@) =~= candidate_table());
    }
    specs
}

/// A path a recommendation covers, as found on disk: whether it exists and
/// how many bytes it holds.
pub struct MeasuredPath {
    pub path: String,
    pub exists: bool,
    pub bytes: u64,
}

pub struct MeasuredPathView {
    pub path: Seq<char>,
    pub exists: bool,
    pub bytes: u64,
}

pub open spec fn measured_views(s: Seq<Option<MeasuredPath>>) -> Seq<Option<MeasuredPathView>> {
    s.map_values(|o: Option<MeasuredPath>| match o {
        Some(m) => Some(MeasuredPathView { path: m.path@, exists: m.exists, bytes: m.bytes }),
        None => None,
    })
}

/// The bytes of the paths that exist (`None` is a path that could not be
/// formed, such as one under an unset environment folder).
pub open spec fn measured_bytes(s: Seq<Option<MeasuredPathView>>) -> int
    decreases s.len(),
{
    if s.len() == 0 {
        0
    } else {
        measured_bytes(s.drop_last()) + match s.last() {
            Some(m) => if m.exists {
                m.bytes as int
            } else {
                0
            },
            None => 0,
        }
    }
}

/// The paths that exist, in order.
pub open spec fn existing_paths(s: Seq<Option<MeasuredPathView>>) -> Seq<Seq<char>>
    decreases s.len(),
{
    if s.len() == 0 {
        Seq::empty()
    } else {
        existing_paths(s.drop_last()) + match s.last() {
            Some(m) => if m.exists {
                seq![m.path]
            } else {
                Seq::empty()
            },
            None => Seq::empty(),
        }
    }
}

pub open spec fn string_views(v: Seq<String>) -> Seq<Seq<char>> {
    v.map_values(|x: String| x@)
}

/// The entries that name a path that exists.
pub open spec fn is_existing(o: Option<MeasuredPathView>) -> bool {
    o matches Some(m) && m.exists
}

pub open spec fn entry_path(o: Option<MeasuredPathView>) -> Seq<char> {
    match o {
        Some(m) => m.path,
        None => Seq::empty(),
    }
}

pub open spec fn entry_bytes(o: Option<MeasuredPathView>) -> int {
    match o {
        Some(m) => m.bytes as int,
        None => 0,
    }
}

/// What a measurement reports, stated through `Seq::filter`: the paths are
/// exactly those of the entries that exist, in their order, and the bytes
/// are the sum of those entries' sizes.
pub proof fn lemma_measure_keeps_existing_paths(s: Seq<Option<MeasuredPathView>>)
    ensures
        existing_paths(s) == s.filter(|o: Option<MeasuredPathView>| is_existing(o)).map_values(
            |o: Option<MeasuredPathView>| entry_path(o),
        ),
        measured_bytes(s) == s.filter(|o: Option<MeasuredPathView>| is_existing(o)).map_values(
            |o: Option<MeasuredPathView>| entry_bytes(o),
        ).fold_left(0int, |acc: int, x: int| acc + x),
    decreases s.len(),
{
    reveal_with_fuel(Seq::filter, 1);
    let p = |o: Option<MeasuredPathView>| is_existing(o);
    let f = |o: Option<MeasuredPathView>| entry_path(o);
    let g = |o: Option<MeasuredPathView>| entry_bytes(o);
    let add = |acc: int, x: int| acc + x;
    if s.len() > 0 {
        let t = s.drop_last();
        lemma_measure_keeps_existing_paths(t);
        let ft = t.filter(p);
        assert(s.filter(p) == if p(s.last()) { ft.push(s.last()) } else { ft });
        if p(s.last()) {
            assert(ft.push(s.last()).map_values(f) =~= ft.map_values(f).push(f(s.last())));
            assert(ft.push(s.last()).map_values(g) =~= ft.map_values(g).push(g(s.last())));
            assert(ft.push(s.last()).map_values(g).drop_last() =~= ft.map_values(g));
            assert(existing_paths(s) =~= existing_paths(t).push(s.last()->0.path));
        } else {
            assert(existing_paths(s) =~= existing_paths(t));
        }
    } else {
        assert(s.filter(p) =~= s);
    }
}

proof fn lemma_measured_prefix(s: Seq<Option<MeasuredPathView>>, k: int)
    requires
        0 <= k <= s.len(),
    ensures
        0 <= measured_bytes(s.take(k)) <= measured_bytes(s),
    decreases s.len() - k,
{
    if k < s.len() {
        lemma_measured_prefix(s, k + 1);
        assert(s.take(k + 1).drop_last() =~= s.take(k));
    } else {
        assert(s.take(k) =~= s);
    }
    lemma_measured_nonneg(s.take(k));
}

proof fn lemma_measured_nonneg(s: Seq<Option<MeasuredPathView>>)
    ensures
        measured_bytes(s) >= 0,
    decreases s.len(),
{
    if s.len() > 0 {
        lemma_measured_nonneg(s.drop_last());
    }
}

/// Sums the sizes of the paths that exist; returns (bytes, existing paths).
pub fn measure(paths: &Vec<Option<MeasuredPath>>) -> (r: (u64, Vec<String>))
    requires
        measured_bytes(measured_views(paths@)) <= u64::MAX,
    ensures
        r.0 == measured_bytes(measured_views(paths@)),
        string_views(r.1@) == existing_paths(measured_views(paths@)),
        string_views(r.1@) == measured_views(paths@).filter(|o: Option<MeasuredPathView>| is_existing(o)).map_values(
            |o: Option<MeasuredPathView>| entry_path(o),
        ),
{
    proof {
        lemma_measure_keeps_existing_paths(measured_views(paths@));
    }
    let ghost mv = measured_views(paths@);
    let mut bytes: u64 = 0;
    let mut existing: Vec<String> = Vec::new();
    let mut i: usize = 0;
    while i < paths.len()
        invariant
            i <= paths@.len(),
            mv == measured_views(paths@),
            measured_bytes(mv) <= u64::MAX,
            bytes == measured_bytes(mv.take(i as int)),
            string_views(existing@) == existing_paths(mv.take(i as int)),
        decreases paths@.len() - i,
    {
        proof {
            assert(mv.take(i + 1).drop_last() =~= mv.take(i as int));
            assert(mv.take(i + 1).last() == mv[i as int]);
            lemma_measured_prefix(mv, i + 1);
        }
        match &paths[i] {
            Some(m) => {
                if m.exists {
                    bytes = bytes + m.bytes;
                    let ghost prev = existing@;
                    existing.push(m.path.clone());
                    proof {
                        assert(string_views(existing@) =~= string_views(prev).push(m.path@));
                    }
                }
            },
            None => {},
        }
        i = i + 1;
    }
    proof {
        assert(mv.take(paths@.len() as int) =~= mv);
    }
    (bytes, existing)
}

/// A recommendation: what to clear, how much it frees, how risky it is,
/// whether it is recommended, and the paths it covers.
pub struct Candidate {
    pub id: String,
    pub name: String,
    pub description: String,
    pub recoverable_bytes: u64,
    pub risk: String,
    pub recommended: bool,
    pub paths: Vec<String>,
}

pub struct CandidateView {
    pub id: Seq<char>,
    pub name: Seq<char>,
    pub description: Seq<char>,
    pub bytes: u64,
    pub risk: Seq<char>,
    pub recommended: bool,
    pub paths: Seq<Seq<char>>,
}

impl View for Candidate {
    type V = CandidateView;

    open spec fn view(&self) -> CandidateView {
        CandidateView {
            id: self.id@,
            name: self.name@,
            description: self.description@,
            bytes: self.recoverable_bytes,
            risk: self.risk@,
            recommended: self.recommended,
            paths: string_views(self.paths@),
        }
    }
}

pub open spec fn candidate_views(s: Seq<Candidate>) -> Seq<CandidateView> {
    s.map_values(|c: Candidate| c@)
}

/// A recommendation for the given paths, or none when the paths that exist
/// hold nothing.
pub open spec fn simple_spec(
    id: Seq<char>,
    name: Seq<char>,
    description: Seq<char>,
    risk: Seq<char>,
    recommended: bool,
    paths: Seq<Option<MeasuredPathView>>,
) -> Option<CandidateView> {
    let bytes = measured_bytes(paths);
    if bytes == 0 {
        None
    } else {
        Some(
            CandidateView {
                id,
                name,
                description,
                bytes: bytes as u64,
                risk,
                recommended,
                paths: existing_paths(paths),
            },
        )
    }
}

/// A recommendation covering the given paths, if they hold anything.
pub fn simple(
    id: &str,
    name: &str,
    description: &str,
    risk: &str,
    recommended: bool,
    paths: &Vec<Option<MeasuredPath>>,
) -> (r: Option<Candidate>)
    requires
        measured_bytes(measured_views(paths@)) <= u64::MAX,
    ensures
        match r {
            Some(c) => simple_spec(id@, name@, description@, risk@, recommended, measured_views(paths@)) == Some(c@),
            None => simple_spec(id@, name@, description@, risk@, recommended, measured_views(paths@)) is None,
        },
{
    let (bytes, existing) = measure(paths);
    if bytes == 0 {
        return None;
    }
    Some(
        Candidate {
            id: id.to_owned(),
            name: name.to_owned(),
            description: description.to_owned(),
            recoverable_bytes: bytes,
            risk: risk.to_owned(),
            recommended,
            paths: existing,
        },
    )
}

/// A target is recommended exactly when the paths that exist hold
/// something (what `measure` adds up); the recommendation then reports
/// those bytes and exactly the paths `measure` lists, with the target's own
/// id, name, description, risk and flag.
pub proof fn lemma_simple_reports_measure(
    id: Seq<char>,
    name: Seq<char>,
    description: Seq<char>,
    risk: Seq<char>,
    recommended: bool,
    paths: Seq<Option<MeasuredPathView>>,
)
    requires
        measured_bytes(paths) <= u64::MAX,
    ensures
        simple_spec(id, name, description, risk, recommended, paths) is None <==> measured_bytes(paths) == 0,
        simple_spec(id, name, description, risk, recommended, paths) matches Some(c) ==> c.id == id && c.name == name
            && c.description == description && c.risk == risk && c.recommended == recommended && c.bytes
            == measured_bytes(paths) && c.paths == existing_paths(paths),
{
    lemma_measured_nonneg(paths);
}

pub open spec fn measured_all(m: Seq<Vec<Option<MeasuredPath>>>) -> Seq<Seq<Option<MeasuredPathView>>> {
    m.map_values(|v: Vec<Option<MeasuredPath>>| measured_views(v@))
}

/// The recommendations from the targets (each with its paths as found on
/// disk), in order, leaving out those that hold nothing.
pub open spec fn candidates_spec(specs: Seq<CandidateSpecView>, measured: Seq<Seq<Option<MeasuredPathView>>>) -> Seq<CandidateView>
    decreases specs.len(),
{
    if specs.len() == 0 || measured.len() == 0 {
        Seq::empty()
    } else {
        let c = specs.last();
        candidates_spec(specs.drop_last(), measured.drop_last()) + match simple_spec(
            c.id,
            c.name,
            c.description,
            c.risk,
            c.recommended,
            measured.last(),
        ) {
            Some(v) => seq![v],
            None => Seq::empty(),
        }
    }
}

/// Builds the recommendations: one per target whose paths hold anything,
/// followed by the old-installers recommendation when there is one.
pub fn build_candidates(
    specs: &Vec<CandidateSpec>,
    measured: &Vec<Vec<Option<MeasuredPath>>>,
    old_installers: Option<Candidate>,
) -> (r: Vec<Candidate>)
    requires
        measured@.len() == specs@.len(),
        forall|i: int| 0 <= i < measured@.len() ==> measured_bytes(measured_views(#[trigger] measured@[i]@)) <= u64::MAX,
    ensures
        candidate_views(r@) == candidates_spec(spec_views(specs@), measured_all(measured@)) + match old_installers {
            Some(c) => seq![c@],
            None => Seq::empty(),
        },
{
    let mut out: Vec<Candidate> = Vec::new();
    let mut i: usize = 0;
    proof {
        assert(spec_views(specs@).take(0) =~= Seq::<CandidateSpecView>::empty());
        assert(candidate_views(out@) =~= Seq::<CandidateView>::empty());
    }
    while i < specs.len()
        invariant
            i <= specs@.len(),
            measured@.len() == specs@.len(),
            forall|i: int| 0 <= i < measured@.len() ==> measured_bytes(measured_views(#[trigger] measured@[i]@)) <= u64::MAX,
            candidate_views(out@) == candidates_spec(
                spec_views(specs@).take(i as int),
                measured_all(measured@).take(i as int),
            ),
        decreases specs@.len() - i,
    {
        let sp = &specs[i];
        let ghost prev = out@;
        proof {
            assert(spec_views(specs@).take(i + 1).drop_last() =~= spec_views(specs@).take(i as int));
            assert(measured_all(measured@).take(i + 1).drop_last() =~= measured_all(measured@).take(i as int));
            assert(spec_views(specs@).take(i + 1).last() == sp@);
            assert(measured_all(measured@).take(i + 1).last() == measured_views(measured@[i as int]@));
        }
        match simple(sp.id.as_str(), sp.name.as_str(), sp.description.as_str(), sp.risk.as_str(), sp.recommended, &measured[i]) {
            Some(c) => {
                out.push(c);
                proof {
                    assert(candidate_views(out@) =~= candidate_views(prev).push(c@));
                }
            },
            None => {},
        }
        i = i + 1;
    }
    proof {
        assert(spec_views(specs@).take(specs@.len() as int) =~= spec_views(specs@));
        assert(measured_all(measured@).take(specs@.len() as int) =~= measured_all(measured@));
    }
    let ghost before = out@;
    match old_installers {
        Some(c) => {
            let ghost cv = c@;
            out.push(c);
            proof {
                assert(candidate_views(out@) =~= candidate_views(before).push(cv));
            }
        },
        None => {
            proof {
                assert(candidate_views(out@) =~= candidate_views(before) + Seq::<CandidateView>::empty());
            }
        },
    }
    out
}


/// The seconds in `OLD_INSTALLER_DAYS` days.
pub const OLD_INSTALLER_SECS: i64 = 15552000;

/// What `chrono::DateTime::parse_from_rfc3339` makes of a text, as the UTC
/// instant it names (seconds since the Unix epoch and the nanoseconds past
/// that second), or `None` where the text is no RFC 3339 date-and-time.
pub uninterp spec fn rfc3339_instant(text: Seq<char>) -> Option<(i64, u32)>;

/// Calls `chrono::DateTime::parse_from_rfc3339` and reads the instant back
/// with `timestamp` and `timestamp_subsec_nanos`. The contract only names
/// the result: it depends on the text alone.
#[verifier::external_body]
fn parse_rfc3339(text: &str) -> (r: Option<(i64, u32)>)
    ensures
        r == rfc3339_instant(text@),
{
    match chrono::DateTime::parse_from_rfc3339(text) {
        Ok(m) => Some((m.timestamp(), m.timestamp_subsec_nanos())),
        Err(_) => None,
    }
}

/// The clock's reading type, `std::time::SystemTime`, carried through as is.
#[verifier::external_type_specification]
#[verifier::external_body]
pub struct ExSystemTime(std::time::SystemTime);

/// Reads the system clock (`SystemTime::now`). Nothing is stated of the
/// reading, which is the clock's.
#[verifier::external_body]
fn clock_now() -> (r: std::time::SystemTime) {
    std::time::SystemTime::now()
}

/// The time from the Unix epoch to `t` (`SystemTime::duration_since` with
/// `UNIX_EPOCH`); `None` where `t` lies before the epoch, which is the one
/// error that function reports. Nothing is stated of the duration itself.
#[verifier::external_body]
fn since_epoch(t: &std::time::SystemTime) -> (r: Option<core::time::Duration>) {
    match t.duration_since(std::time::UNIX_EPOCH) {
        Ok(d) => Some(d),
        Err(_) => None,
    }
}

/// The whole seconds of a duration (`Duration::as_secs`).
#[verifier::external_body]
fn whole_seconds(d: &core::time::Duration) -> (r: u64) {
    d.as_secs()
}

/// The nanoseconds of a duration past its whole seconds
/// (`Duration::subsec_nanos`), which its documentation puts below one
/// second.
#[verifier::external_body]
fn nanos_past_second(d: &core::time::Duration) -> (r: u32)
    ensures
        r < 1_000_000_000,
{
    d.subsec_nanos()
}

/// The current time as (seconds, nanoseconds) since the Unix epoch; `None`
/// when the clock reads a time before 1970 or seconds beyond `i64`.
fn now_utc() -> (r: Option<(i64, u32)>)
    ensures
        r matches Some(t) ==> 0 <= t.0 && t.1 < 1_000_000_000,
{
    let reading = clock_now();
    match since_epoch(&reading) {
        Some(d) => {
            let secs = whole_seconds(&d);
            let nanos = nanos_past_second(&d);
            if secs <= 0x7fff_ffff_ffff_ffffu64 {
                Some((secs as i64, nanos))
            } else {
                None
            }
        },
        None => None,
    }
}

/// A large file that the last scan found in a Downloads folder with an
/// installer or disc-image extension.
pub struct InstallerFile {
    pub path: String,
    pub size_bytes: u64,
    /// When it was last modified, as RFC 3339 text.
    pub modified_at: String,
}

pub struct InstallerFileView {
    pub path: Seq<char>,
    pub size_bytes: u64,
    pub modified_at: Seq<char>,
}

impl View for InstallerFile {
    type V = InstallerFileView;

    open spec fn view(&self) -> InstallerFileView {
        InstallerFileView { path: self.path@, size_bytes: self.size_bytes, modified_at: self.modified_at@ }
    }
}

pub open spec fn installer_views(s: Seq<InstallerFile>) -> Seq<InstallerFileView> {
    s.map_values(|f: InstallerFile| f@)
}

/// Whether an instant lies more than `OLD_INSTALLER_DAYS` days before `now`.
pub open spec fn older_than_cutoff(t: (i64, u32), now: (i64, u32)) -> bool {
    t.0 + OLD_INSTALLER_SECS < now.0 || (t.0 + OLD_INSTALLER_SECS == now.0 && t.1 < now.1)
}

/// Whether a file's modification time parses and lies before the cutoff.
pub open spec fn is_old_installer(f: InstallerFileView, now: (i64, u32)) -> bool {
    match rfc3339_instant(f.modified_at) {
        Some(t) => older_than_cutoff(t, now),
        None => false,
    }
}

/// The old installers among the files, in order.
pub open spec fn old_installer_files(s: Seq<InstallerFileView>, now: (i64, u32)) -> Seq<InstallerFileView>
    decreases s.len(),
{
    if s.len() == 0 {
        Seq::empty()
    } else {
        old_installer_files(s.drop_last(), now) + if is_old_installer(s.last(), now) {
            seq![s.last()]
        } else {
            Seq::empty()
        }
    }
}

/// The bytes the files hold together.
pub open spec fn installer_bytes(s: Seq<InstallerFileView>) -> int
    decreases s.len(),
{
    if s.len() == 0 {
        0
    } else {
        installer_bytes(s.drop_last()) + s.last().size_bytes
    }
}

/// The description of the old-installers recommendation for `count` files.
pub open spec fn old_installers_description(count: nat) -> Seq<char> {
    decimal(count) + " installer/ISO file(s) in Downloads not modified in over "@ + decimal(
        (OLD_INSTALLER_DAYS / 30) as nat,
    ) + " months. Delete them if no longer required."@
}

/// The old-installers recommendation at instant `now`: none when no file is
/// old, else one covering the old files, their bytes and their paths.
pub open spec fn old_installers_spec(files: Seq<InstallerFileView>, now: (i64, u32)) -> Option<CandidateView> {
    let old = old_installer_files(files, now);
    if old.len() == 0 {
        None
    } else {
        Some(
            CandidateView {
                id: "old-installers"@,
                name: "Old Installers in Downloads"@,
                description: old_installers_description(old.len()),
                bytes: installer_bytes(old) as u64,
                risk: "medium"@,
                recommended: false,
                paths: old.map_values(|f: InstallerFileView| f.path),
            },
        )
    }
}

pub open spec fn candidate_option_view(c: Option<Candidate>) -> Option<CandidateView> {
    match c {
        Some(c) => Some(c@),
        None => None,
    }
}

proof fn lemma_old_bytes_bounded(s: Seq<InstallerFileView>, now: (i64, u32))
    ensures
        0 <= installer_bytes(old_installer_files(s, now)) <= installer_bytes(s),
        old_installer_files(s, now).len() <= s.len(),
    decreases s.len(),
{
    if s.len() > 0 {
        lemma_old_bytes_bounded(s.drop_last(), now);
        let prev = old_installer_files(s.drop_last(), now);
        if is_old_installer(s.last(), now) {
            assert(old_installer_files(s, now).drop_last() =~= prev);
        } else {
            assert(old_installer_files(s, now) =~= prev);
        }
    }
}

/// The old-installers recommendation at instant `now` (seconds since the
/// Unix epoch, nanoseconds past that second): the files whose modification
/// time parses and lies more than `OLD_INSTALLER_DAYS` days before `now`.
pub fn old_installers_at(files: &Vec<InstallerFile>, now: (i64, u32)) -> (r: Option<Candidate>)
    requires
        installer_bytes(installer_views(files@)) <= u64::MAX,
    ensures
        candidate_option_view(r) == old_installers_spec(installer_views(files@), now),
{
    let ghost fv = installer_views(files@);
    let mut bytes: u64 = 0;
    let mut count: u64 = 0;
    let mut paths: Vec<String> = Vec::new();
    let mut i: usize = 0;
    while i < files.len()
        invariant
            i <= files@.len(),
            fv == installer_views(files@),
            installer_bytes(fv) <= u64::MAX,
            bytes == installer_bytes(old_installer_files(fv.take(i as int), now)),
            count == old_installer_files(fv.take(i as int), now).len(),
            count <= i,
            string_views(paths@) == old_installer_files(fv.take(i as int), now).map_values(
                |f: InstallerFileView| f.path,
            ),
        decreases files@.len() - i,
    {
        let ghost prev = old_installer_files(fv.take(i as int), now);
        proof {
            assert(fv.take(i + 1).drop_last() =~= fv.take(i as int));
            assert(fv.take(i + 1).last() == fv[i as int]);
            lemma_old_bytes_bounded(fv.take(i + 1), now);
            lemma_installer_prefix(fv, i + 1);
        }
        let f = &files[i];
        let old = match parse_rfc3339(f.modified_at.as_str()) {
            Some(t) => {
                let (s, n) = t;
                let cut: i128 = s as i128 + OLD_INSTALLER_SECS as i128;
                cut < now.0 as i128 || (cut == now.0 as i128 && n < now.1)
            },
            None => false,
        };
        proof {
            assert(fv[i as int] == f@);
            assert(old == is_old_installer(fv[i as int], now));
        }
        if old {
            proof {
                let next = old_installer_files(fv.take(i + 1), now);
                assert(next =~= prev.push(fv[i as int]));
                assert(next.drop_last() =~= prev);
                assert(installer_bytes(next) == installer_bytes(prev) + f.size_bytes);
            }
            bytes = bytes + f.size_bytes;
            count = count + 1;
            let ghost pv = paths@;
            paths.push(f.path.clone());
            proof {
                assert(old_installer_files(fv.take(i + 1), now) =~= prev.push(fv[i as int]));
                assert(string_views(paths@) =~= string_views(pv).push(f.path@));
                assert(old_installer_files(fv.take(i + 1), now).map_values(|f: InstallerFileView| f.path)
                    =~= prev.map_values(|f: InstallerFileView| f.path).push(f.path@));
            }
        } else {
            proof {
                assert(old_installer_files(fv.take(i + 1), now) =~= prev);
            }
        }
        i = i + 1;
    }
    proof {
        assert(fv.take(files@.len() as int) =~= fv);
    }
    if count == 0 {
        return None;
    }
    let mut description = decimal_string(count);
    push_str(&mut description, " installer/ISO file(s) in Downloads not modified in over ");
    let months = decimal_string((OLD_INSTALLER_DAYS / 30) as u64);
    push_str(&mut description, months.as_str());
    push_str(&mut description, " months. Delete them if no longer required.");
    Some(
        Candidate {
            id: "old-installers".to_owned(),
            name: "Old Installers in Downloads".to_owned(),
            description,
            recoverable_bytes: bytes,
            risk: "medium".to_owned(),
            recommended: false,
            paths,
        },
    )
}

proof fn lemma_installer_prefix(s: Seq<InstallerFileView>, k: int)
    requires
        0 <= k <= s.len(),
    ensures
        installer_bytes(s.take(k)) <= installer_bytes(s),
    decreases s.len() - k,
{
    if k < s.len() {
        lemma_installer_prefix(s, k + 1);
        assert(s.take(k + 1).drop_last() =~= s.take(k));
    } else {
        assert(s.take(k) =~= s);
    }
}

/// The old-installers recommendation now: the files that
/// `old_installers_at` keeps at the clock's current reading, and none when
/// the clock reads a time before 1970.
pub fn old_installers(files: &Vec<InstallerFile>) -> (r: Option<Candidate>)
    requires
        installer_bytes(installer_views(files@)) <= u64::MAX,
    ensures
        exists|now: Option<(i64, u32)>|
            candidate_option_view(r) == #[trigger] old_installers_when(installer_views(files@), now),
{
    let reading = now_utc();
    match reading {
        Some(now) => {
            let r = old_installers_at(files, now);
            proof {
                assert(candidate_option_view(r) == old_installers_when(installer_views(files@), reading));
            }
            r
        },
        None => {
            proof {
                assert(candidate_option_view(None) == old_installers_when(installer_views(files@), reading));
            }
            None
        },
    }
}

/// The old-installers recommendation for a clock reading: none when the
/// clock could not be read.
pub open spec fn old_installers_when(files: Seq<InstallerFileView>, now: Option<(i64, u32)>) -> Option<
    CandidateView,
> {
    match now {
        Some(t) => old_installers_spec(files, t),
        None => None,
    }
}


/// One character inside a JSON string as serde_json writes it: `"` and `\`
/// escaped with a backslash; backspace, tab, line feed, form feed and
/// carriage return as `\b`, `\t`, `\n`, `\f`, `\r`; the other control
/// characters below U+0020 as `\u00` and two lowercase hex digits; every
/// other character as itself.
pub open spec fn json_char(c: char) -> Seq<char> {
    let n = c as int;
    if c == '"' || c == '\\' {
        seq!['\\', c]
    } else if n == 8 {
        seq!['\\', 'b']
    } else if n == 9 {
        seq!['\\', 't']
    } else if n == 10 {
        seq!['\\', 'n']
    } else if n == 12 {
        seq!['\\', 'f']
    } else if n == 13 {
        seq!['\\', 'r']
    } else if n < 32 {
        seq!['\\', 'u', '0', '0', crate::dupes::hex_digit(n / 16), crate::dupes::hex_digit(n % 16)]
    } else {
        seq![c]
    }
}

/// The characters of a string, each as `json_char` writes it.
pub open spec fn json_chars(s: Seq<char>) -> Seq<char>
    decreases s.len(),
{
    if s.len() == 0 {
        Seq::empty()
    } else {
        json_chars(s.drop_last()) + json_char(s.last())
    }
}

/// A JSON string: the escaped characters between double quotes.
pub open spec fn json_string(s: Seq<char>) -> Seq<char> {
    seq!['"'] + json_chars(s) + seq!['"']
}

/// The JSON strings of the items, separated by commas.
pub open spec fn json_items(items: Seq<Seq<char>>) -> Seq<char>
    decreases items.len(),
{
    if items.len() == 0 {
        Seq::empty()
    } else if items.len() == 1 {
        json_string(items[0])
    } else {
        json_items(items.drop_last()) + seq![','] + json_string(items.last())
    }
}

/// What `serde_json::to_string` writes for a list of strings: `[`, the JSON
/// strings separated by commas with no spaces, `]`.
pub open spec fn json_string_array(items: Seq<Seq<char>>) -> Seq<char> {
    seq!['['] + json_items(items) + seq![']']
}

/// Calls `serde_json::to_string` on a list of strings (its compact
/// formatter and string escaping). It reports no error for strings; the
/// empty string stands in for one all the same.
#[verifier::external_body]
fn paths_json(paths: &Vec<String>) -> (r: String)
    ensures
        r@ == json_string_array(string_views(paths@)),
{
    serde_json::to_string(paths).unwrap_or_default()
}

/// A recommendation as it is stored: the candidate, whether the user has
/// ignored it, and its paths as a JSON array.
pub struct RecommendationRow {
    pub id: String,
    pub name: String,
    pub description: String,
    pub recoverable_bytes: u64,
    pub risk: String,
    pub recommended: bool,
    pub ignored: bool,
    pub paths_json: String,
}

pub struct RecommendationRowView {
    pub candidate: CandidateView,
    pub ignored: bool,
    pub paths_json: Seq<char>,
}

impl View for RecommendationRow {
    type V = RecommendationRowView;

    open spec fn view(&self) -> RecommendationRowView {
        RecommendationRowView {
            candidate: CandidateView {
                id: self.id@,
                name: self.name@,
                description: self.description@,
                bytes: self.recoverable_bytes,
                risk: self.risk@,
                recommended: self.recommended,
                paths: Seq::empty(),
            },
            ignored: self.ignored,
            paths_json: self.paths_json@,
        }
    }
}

pub open spec fn row_views(s: Seq<RecommendationRow>) -> Seq<RecommendationRowView> {
    s.map_values(|r: RecommendationRow| r@)
}

/// The row stored for a candidate.
pub open spec fn row_of(c: CandidateView, ignored_ids: Seq<Seq<char>>) -> RecommendationRowView {
    RecommendationRowView {
        candidate: CandidateView { paths: Seq::empty(), ..c },
        ignored: ignored_ids.contains(c.id),
        paths_json: json_string_array(c.paths),
    }
}

/// The bytes of the candidates the user has not ignored.
pub open spec fn kept_bytes(s: Seq<CandidateView>, ignored_ids: Seq<Seq<char>>) -> int
    decreases s.len(),
{
    if s.len() == 0 {
        0
    } else {
        kept_bytes(s.drop_last(), ignored_ids) + if ignored_ids.contains(s.last().id) {
            0
        } else {
            s.last().bytes as int
        }
    }
}

proof fn lemma_kept_prefix(s: Seq<CandidateView>, ignored_ids: Seq<Seq<char>>, k: int)
    requires
        0 <= k <= s.len(),
    ensures
        0 <= kept_bytes(s.take(k), ignored_ids) <= kept_bytes(s, ignored_ids),
    decreases s.len() - k,
{
    if k < s.len() {
        lemma_kept_prefix(s, ignored_ids, k + 1);
        assert(s.take(k + 1).drop_last() =~= s.take(k));
    } else {
        assert(s.take(k) =~= s);
    }
    lemma_kept_nonneg(s.take(k), ignored_ids);
}

proof fn lemma_kept_nonneg(s: Seq<CandidateView>, ignored_ids: Seq<Seq<char>>)
    ensures
        kept_bytes(s, ignored_ids) >= 0,
    decreases s.len(),
{
    if s.len() > 0 {
        lemma_kept_nonneg(s.drop_last(), ignored_ids);
    }
}

/// Whether `id` is among the ignored ids.
fn is_ignored(id: &str, ignored_ids: &Vec<String>) -> (b: bool)
    ensures
        b == string_views(ignored_ids@).contains(id@),
{
    let target = chars_of(id);
    let mut i: usize = 0;
    while i < ignored_ids.len()
        invariant
            i <= ignored_ids@.len(),
            target@ == id@,
            forall|j: int| 0 <= j < i ==> ignored_ids@[j]@ != id@,
        decreases ignored_ids@.len() - i,
    {
        let other = chars_of(ignored_ids[i].as_str());
        if eq_chars(&other, &target) {
            proof {
                assert(string_views(ignored_ids@)[i as int] == id@);
            }
            return true;
        }
        i = i + 1;
    }
    proof {
        if string_views(ignored_ids@).contains(id@) {
            let j = choose|j: int| 0 <= j < string_views(ignored_ids@).len() && string_views(ignored_ids@)[j] == id@;
            assert(ignored_ids@[j]@ == id@);
        }
    }
    false
}

/// The rows to store for the candidates, keeping each one's ignored flag,
/// and the bytes the candidates not ignored can recover together.
pub fn recommendation_rows(candidates: &Vec<Candidate>, ignored_ids: &Vec<String>) -> (r: (
    Vec<RecommendationRow>,
    u64,
))
    requires
        kept_bytes(candidate_views(candidates@), string_views(ignored_ids@)) <= u64::MAX,
    ensures
        row_views(r.0@) == candidate_views(candidates@).map_values(
            |c: CandidateView| row_of(c, string_views(ignored_ids@)),
        ),
        r.1 == kept_bytes(candidate_views(candidates@), string_views(ignored_ids@)),
{
    let ghost cv = candidate_views(candidates@);
    let ghost ig = string_views(ignored_ids@);
    let mut rows: Vec<RecommendationRow> = Vec::new();
    let mut total: u64 = 0;
    let mut i: usize = 0;
    while i < candidates.len()
        invariant
            i <= candidates@.len(),
            cv == candidate_views(candidates@),
            ig == string_views(ignored_ids@),
            kept_bytes(cv, ig) <= u64::MAX,
            total == kept_bytes(cv.take(i as int), ig),
            row_views(rows@) == cv.take(i as int).map_values(|c: CandidateView| row_of(c, ig)),
        decreases candidates@.len() - i,
    {
        let c = &candidates[i];
        proof {
            assert(cv.take(i + 1).drop_last() =~= cv.take(i as int));
            assert(cv.take(i + 1).last() == c@);
            lemma_kept_prefix(cv, ig, i + 1);
        }
        let ignored = is_ignored(c.id.as_str(), ignored_ids);
        if !ignored {
            total = total + c.recoverable_bytes;
        }
        let json = paths_json(&c.paths);
        let ghost prev = rows@;
        rows.push(
            RecommendationRow {
                id: c.id.clone(),
                name: c.name.clone(),
                description: c.description.clone(),
                recoverable_bytes: c.recoverable_bytes,
                risk: c.risk.clone(),
                recommended: c.recommended,
                ignored,
                paths_json: json,
            },
        );
        proof {
            assert(row_views(rows@) =~= row_views(prev).push(row_of(c@, ig)));
            assert(cv.take(i + 1).map_values(|c: CandidateView| row_of(c, ig)) =~= cv.take(
                i as int,
            ).map_values(|c: CandidateView| row_of(c, ig)).push(row_of(c@, ig)));
        }
        i = i + 1;
    }
    proof {
        assert(cv.take(candidates@.len() as int) =~= cv);
    }
    (rows, total)
}

} // verus!
