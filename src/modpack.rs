use vstd::prelude::*;
use vstd::string::*;

use crate::text::{decimal, u32_text};

verus! {

/// The CDN path of a CurseForge file: the file id split into thousands and
/// remainder, then the file name.
pub open spec fn cdn_path(file_id: u32, filename: Seq<char>) -> Seq<char> {
    "/files/"@ + decimal((file_id / 1000) as nat) + "/"@ + decimal((file_id % 1000) as nat) + "/"@ + filename
}

fn cdn_url(host: &str, file_id: u32, filename: &str) -> (r: String)
    ensures
        r@ == host@ + cdn_path(file_id, filename@),
{
    let mut r = host.to_string();
    r.append("/files/");
    r.append(u32_text(file_id / 1000).as_str());
    r.append("/");
    r.append(u32_text(file_id % 1000).as_str());
    r.append("/");
    r.append(filename);
    r
}

/// The primary download URL of a CurseForge file.
pub fn get_curseforge_download_url_with_filename(project_id: u32, file_id: u32, filename: &str) -> (r: String)
    ensures
        r@ == "https://edge.forgecdn.net"@ + cdn_path(file_id, filename@),
{
    cdn_url("https://edge.forgecdn.net", file_id, filename)
}

/// The fallback download URL of a CurseForge file.
pub fn get_curseforge_alternative_url(project_id: u32, file_id: u32, filename: &str) -> (r: String)
    ensures
        r@ == "https://files.forgecdn.net"@ + cdn_path(file_id, filename@),
{
    cdn_url("https://files.forgecdn.net", file_id, filename)
}

pub fn get_curseforge_url_pattern1(project_id: u32, file_id: u32, filename: &str) -> (r: String)
    ensures
        r@ == "https://edge.forgecdn.net"@ + cdn_path(file_id, filename@),
{
    cdn_url("https://edge.forgecdn.net", file_id, filename)
}

pub fn get_curseforge_url_pattern2(project_id: u32, file_id: u32, filename: &str) -> (r: String)
    ensures
        r@ == "https://files.forgecdn.net"@ + cdn_path(file_id, filename@),
{
    cdn_url("https://files.forgecdn.net", file_id, filename)
}

pub fn get_curseforge_url_pattern3(project_id: u32, file_id: u32, filename: &str) -> (r: String)
    ensures
        r@ == "https://mediafilez.forgecdn.net"@ + cdn_path(file_id, filename@),
{
    cdn_url("https://mediafilez.forgecdn.net", file_id, filename)
}

} // verus!
