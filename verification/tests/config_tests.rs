use github_cli::config::server_error;
use github_cli::config::link_file_text;
use github_cli::config::{login_token, with_token};
use github_cli::config::{
    created_repo_id, linked_repo_id, repo_id_from_meta, plan_api_url, require_token, settle_api_url, ApiUrlPlan,
    Config, LinkUse, RepoMeta,
};

fn cfg(token: Option<&str>, api: Option<&str>) -> Config {
    Config {
        project_path: ".".to_string(),
        token: token.map(|s| s.to_string()),
        api_url: api.map(|s| s.to_string()),
    }
}

#[test]
fn default_config_values() {
    let c = Config::default_config();
    assert_eq!(c.project_path, ".");
    assert_eq!(c.token, None);
    assert_eq!(c.api_url, Some("http://localhost:5000/api".to_string()));
}

#[test]
fn token_is_required() {
    assert_eq!(require_token(&cfg(Some("abc"), None)), Ok("abc".to_string()));
    assert_eq!(
        require_token(&cfg(None, None)),
        Err("Not logged in. Please run 'login <email> <password>' first.".to_string())
    );
}

#[test]
fn remote_api_address_is_used_directly() {
    let plan = plan_api_url(&cfg(None, Some("https://example.com/api")));
    assert_eq!(plan, ApiUrlPlan::Use { url: "https://example.com/api".to_string() });
}

#[test]
fn local_api_address_is_probed() {
    assert_eq!(
        plan_api_url(&cfg(None, None)),
        ApiUrlPlan::Probe {
            configured: "http://localhost:5000/api".to_string(),
            health: "http://localhost:5000/health".to_string(),
        }
    );
    assert_eq!(
        plan_api_url(&cfg(None, Some("http://127.0.0.1:8000/v1//"))),
        ApiUrlPlan::Probe {
            configured: "http://127.0.0.1:8000/v1//".to_string(),
            health: "http://127.0.0.1:8000/v1/health".to_string(),
        }
    );
    assert_eq!(
        plan_api_url(&cfg(None, Some("http://localhost/api/"))),
        ApiUrlPlan::Probe {
            configured: "http://localhost/api/".to_string(),
            health: "http://localhost/health".to_string(),
        }
    );
}

#[test]
fn settled_api_address() {
    assert_eq!(settle_api_url("http://localhost:5000/api".to_string(), true), "http://localhost:5000/api");
    assert_eq!(
        settle_api_url("http://localhost:5000/api".to_string(), false),
        "https://gtihub-backend.vercel.app/api"
    );
}

#[test]
fn linked_repository_id() {
    assert_eq!(
        linked_repo_id(RepoMeta::Text { content: "{\"name\":\"web\",\"id\":\"r1\"}".to_string() }, LinkUse::Other),
        Ok("r1".to_string())
    );
    assert_eq!(
        linked_repo_id(RepoMeta::Text { content: "{\"id\": 7}".to_string() }, LinkUse::Other),
        Err("Invalid repository ID in metadata file.".to_string())
    );
    assert_eq!(
        linked_repo_id(RepoMeta::Text { content: "[1, 2]".to_string() }, LinkUse::Push),
        Err("Invalid repository ID in metadata file.".to_string())
    );
    assert_eq!(
        linked_repo_id(RepoMeta::Text { content: "".to_string() }, LinkUse::Other),
        Err("Failed to parse repo metadata: EOF while parsing a value at line 1 column 0".to_string())
    );
    assert_eq!(
        linked_repo_id(RepoMeta::Missing, LinkUse::Other),
        Err("No remote repository configured. Run 'remote-link <repo_id>' or 'remote-create <repo_name>' first.".to_string())
    );
    assert_eq!(
        linked_repo_id(RepoMeta::Missing, LinkUse::Push),
        Err("No remote repository configured. Run 'remote-create <repo_name>' in this folder first.".to_string())
    );
    assert_eq!(
        linked_repo_id(RepoMeta::Unreadable { reason: "denied".to_string() }, LinkUse::Push),
        Err("Failed to read repo metadata: denied".to_string())
    );
}

#[test]
fn repository_id_from_parsed_metadata() {
    assert_eq!(repo_id_from_meta(None, Some("x".to_string())), Ok("x".to_string()));
    assert_eq!(
        repo_id_from_meta(None, None),
        Err("Invalid repository ID in metadata file.".to_string())
    );
    assert_eq!(
        repo_id_from_meta(Some("bad".to_string()), Some("x".to_string())),
        Err("Failed to parse repo metadata: bad".to_string())
    );
}

#[test]
fn created_repository_id() {
    assert_eq!(created_repo_id(Some("a".to_string()), Some("b".to_string())), Ok("a".to_string()));
    assert_eq!(created_repo_id(None, Some("b".to_string())), Ok("b".to_string()));
    assert_eq!(
        created_repo_id(None, None),
        Err("Repository ID not found in server response.".to_string())
    );
}

#[test]
fn link_file_reads_back_its_id() {
    let text = link_file_text("web", "r1");
    assert_eq!(text, "{\n  \"id\": \"r1\",\n  \"name\": \"web\"\n}");
    assert_eq!(linked_repo_id(RepoMeta::Text { content: text }, LinkUse::Other), Ok("r1".to_string()));
    let odd = link_file_text("a \"quoted\" name", "id\\with\"stuff\n");
    assert_eq!(
        linked_repo_id(RepoMeta::Text { content: odd }, LinkUse::Push),
        Ok("id\\with\"stuff\n".to_string())
    );
}

#[test]
fn login_keeps_other_settings() {
    let c = with_token(cfg(None, Some("https://x/api")), "tok".to_string());
    assert_eq!(c, Config { project_path: ".".to_string(), token: Some("tok".to_string()), api_url: Some("https://x/api".to_string()) });
    assert_eq!(login_token(Some("t".to_string())), Ok("t".to_string()));
    assert_eq!(login_token(None), Err("Access token not found in login response.".to_string()));
}

#[test]
fn server_error_message() {
    assert_eq!(server_error("quota exceeded"), "Server returned error: quota exceeded");
    assert_eq!(server_error(""), "Server returned error: ");
}
