use servermint::modpack::{
    get_curseforge_alternative_url, get_curseforge_download_url_with_filename, get_curseforge_url_pattern1,
    get_curseforge_url_pattern2, get_curseforge_url_pattern3,
};

#[test]
fn curseforge_urls_split_file_id() {
    assert_eq!(
        get_curseforge_download_url_with_filename(1, 4_567_089, "jei.jar"),
        "https://edge.forgecdn.net/files/4567/89/jei.jar"
    );
    assert_eq!(get_curseforge_alternative_url(1, 999, "a.jar"), "https://files.forgecdn.net/files/0/999/a.jar");
    assert_eq!(get_curseforge_url_pattern1(1, 1000, "b.jar"), "https://edge.forgecdn.net/files/1/0/b.jar");
    assert_eq!(get_curseforge_url_pattern2(1, 2001, "c.jar"), "https://files.forgecdn.net/files/2/1/c.jar");
    assert_eq!(get_curseforge_url_pattern3(1, 12345, "d.jar"), "https://mediafilez.forgecdn.net/files/12/345/d.jar");
}
