use quake_log_parse::error::LogError;
use quake_log_parse::events::{
    insert_kills_by_means, process_client_changed_line, process_events_matches, process_init_game,
    process_kill_line, parse_player_kill, parse_world_kill, classify_line, LineKind,
};
use quake_log_parse::log_model::LogModel;
use quake_log_parse::match_data::{Match, MatchData};
use quake_log_parse::means_of_death::MeansOfDeath;
use quake_log_parse::ranking::process_ranking;

const LOG_DATA: &str = r#"6:34 InitGame: \capturelimit\8\g_maxGameClients\0\timelimit\15\fraglimit\20\dmflags\0\bot_minplayers\0\sv_allowDownload\0\sv_maxclients\16\sv_privateClients\2\g_gametype\= 0\sv_hostname\Code Miner Server\sv_minRate\0\sv_maxRate\10000\sv_minPing\0\sv_maxPing\0\sv_floodProtect\1\version\ioq3 1.36 linux-x86_64 Apr 12 2009\protocol\68\mapname\q3dm17\gamename\baseq3\g_needpass\0
6:34 ClientUserinfoChanged: 2 n\Isgalamido\t\0\model\uriel/zael\hmodel\uriel/zael\g_redteam\\g_blueteam\\c1\5\c2\5\hc\100\w\0\l\0\tt\0\tl\0
6:34 ClientUserinfoChanged: 3 n\Oootsimo\t\0\model\razor/id\hmodel\razor/id\g_redteam\\g_blueteam\\c1\3\c2\5\hc\100\w\0\l\0\tt\0\tl\0
6:34 ClientUserinfoChanged: 4 n\Dono da Bola\t\0\model\sarge\hmodel\sarge\g_redteam\\g_blueteam\\c1\4\c2\5\hc\95\w\0\l\0\tt\0\tl\0
6:34 ClientUserinfoChanged: 5 n\Assasinu Credi\t\0\model\sarge\hmodel\sarge\g_redteam\\g_blueteam\\c1\4\c2\5\hc\100\w\0\l\0\tt\0\tl\0
6:34 ClientUserinfoChanged: 6 n\Zeh\t\0\model\sarge/default\hmodel\sarge/default\g_redteam\\g_blueteam\\c1\1\c2\5\hc\100\w\0\l\0\tt\0\tl\0
6:34 ClientUserinfoChanged: 7 n\Mal\t\0\model\sarge\hmodel\sarge\g_redteam\\g_blueteam\\c1\4\c2\5\hc\100\w\0\l\0\tt\0\tl\0
6:43 Kill: 4 2 6: Dono da Bola killed Isgalamido by MOD_ROCKET
6:45 Kill: 1022 4 22: <world> killed Dono da Bola by MOD_TRIGGER_HURT
6:48 Kill: 6 3 6: Zeh killed Oootsimo by MOD_ROCKET
7:15 Kill: 1022 2 22: <world> killed Isgalamido by MOD_TRIGGER_HURT
7:16 Kill: 1022 2 22: <world> killed Isgalamido by MOD_TRIGGER_HURT
7:17 Kill: 1022 2 22: <world> killed Isgalamido by MOD_TRIGGER_HURT
7:22 Kill: 1022 3 22: <world> killed Oootsimo by MOD_TRIGGER_HURT
7:25 Kill: 1022 5 22: <world> killed Assasinu Credi by MOD_TRIGGER_HURT
7:26 Kill: 4 7 7: Dono da Bola killed Mal by MOD_ROCKET_SPLASH
7:29 Kill: 2 6 6: Isgalamido killed Zeh by MOD_ROCKET
7:33 Kill: 3 5 7: Oootsimo killed Assasinu Credi by MOD_ROCKET_SPLASH
7:34 Kill: 2 3 7: Isgalamido killed Oootsimo by MOD_ROCKET_SPLASH
7:37 Kill: 4 4 7: Dono da Bola killed Dono da Bola by MOD_ROCKET_SPLASH
7:40 Kill: 3 5 7: Oootsimo killed Assasinu Credi by MOD_ROCKET_SPLASH
7:44 Kill: 5 7 7: Assasinu Credi killed Mal by MOD_ROCKET_SPLASH
7:51 Kill: 3 4 7: Oootsimo killed Oootsimo by MOD_ROCKET_SPLASH
7:52 Kill: 1022 7 22: <world> killed Mal by MOD_TRIGGER_HURT
7:54 Kill: 5 3 7: Assasinu Credi killed Oootsimo by MOD_ROCKET_SPLASH
7:57 Kill: 7 6 7: Mal killed Zeh by MOD_ROCKET_SPLASH
13:52 Kill: 6 7 6: Zeh killed Mal by MOD_ROCKET
13:55 Kill: 3 4 6: Oootsimo killed Dono da Bola by MOD_ROCKET"#;

#[test]
fn test_process_events_matches() {
    let mut matches: Vec<Match> = Vec::new();
    let result = process_events_matches(&mut matches, LOG_DATA);

    assert!(result.is_ok());
    assert_eq!(matches.len(), 1);

    let game_data = &matches[0].data;
    assert_eq!(game_data.kill_count("Dono da Bola"), Some(2));
    assert_eq!(game_data.kill_count("Oootsimo"), Some(3));
    assert_eq!(game_data.kill_count("Zeh"), Some(2));
    assert_eq!(game_data.kill_count("Mal"), Some(0));
    assert_eq!(game_data.kill_count("Assasinu Credi"), Some(1));
    assert_eq!(game_data.kill_count("Isgalamido"), Some(-1));
    assert_eq!(game_data.total_kills, 21);
    assert_eq!(game_data.players.len(), 6);
}

#[test]
fn test_process_init_game() {
    let mut matches: Vec<Match> = vec![];
    let result = process_init_game(&mut matches);
    assert!(result.is_ok());
    assert_eq!(matches.len(), 1);
}

#[test]
fn test_process_kill_line_player_kill() {
    let mut game = MatchData::default();
    let line = "21:42 Kill: 1022 2 22: <world> killed NonExistentPlayer by MOD_TRIGGER_HURT";
    let result = process_kill_line(line, &mut game);
    assert!(result.is_err());

    game.players.push("Isgalamido".to_owned());
    let line = "21:42 Kill: 1022 2 22: <world> killed Isgalamido by MOD_TRIGGER_HURT";
    let result = process_kill_line(line, &mut game);
    assert!(result.is_ok());
    assert_eq!(game.total_kills, 1);
    assert_eq!(game.kill_count("Isgalamido"), Some(-1));
    assert_ne!(game.kill_count("<world>"), Some(1));

    let line = "22:06 Kill: 2 3 7: Isgalamido killed Mocinha by MOD_ROCKET_SPLASH";
    let result = process_kill_line(line, &mut game);
    assert!(result.is_ok());
    assert_eq!(game.total_kills, 2);
    assert_eq!(game.kill_count("Isgalamido"), Some(0));
    assert_ne!(game.kill_count("Mocinha"), Some(0));

    let line = " 21:15 ClientUserinfoChanged: 2 n\\Isgalamido\\t\\0";
    let result = process_kill_line(line, &mut game);
    assert!(result.is_err());
}

#[test]
fn test_insert_kills_by_means() {
    let mut game = MatchData::default();
    let line = "10:20 Kill: 1 2 3: Player1 killed Player2";
    let result = insert_kills_by_means(line, &mut game);
    assert_eq!(
        result.err(),
        Some(LogError::InsertKillMeanError(
            "Mean 'Player2' not recognized as a valid means of death: 10:20 Kill: 1 2 3: Player1 killed Player2"
                .to_string()
        ))
    );
    assert!(game.kills_by_means.is_empty());
    let line = "10:20 Kill: 1 2 3: Player1 killed Player2 by MOD_ROCKET_SPLASH";
    let result = insert_kills_by_means(line, &mut game);
    assert!(result.is_ok());
}

#[test]
fn test_process_ranking() {
    let mut matches = Vec::new();
    let mut ranking = Vec::new();

    let mut match_data = MatchData::default();
    match_data.players.push("Player1".to_string());
    match_data.kills.push(("Player1".to_string(), 5));
    matches.push(Match { id: 1, data: match_data });

    let mut match_data = MatchData::default();
    match_data.players.push("Player2".to_string());
    match_data.kills.push(("Player2".to_string(), -3));
    matches.push(Match { id: 2, data: match_data });

    let mut match_data = MatchData::default();
    match_data.players.push("Player1".to_string());
    match_data.players.push("Player2".to_string());
    match_data.kills.push(("Player1".to_string(), 2));
    match_data.kills.push(("Player2".to_string(), -1));
    match_data.players.push("Player3".to_string());
    match_data.kills.push(("Player3".to_string(), 9));
    matches.push(Match { id: 3, data: match_data });

    process_ranking(&mut matches, &mut ranking);

    assert_eq!(ranking.len(), 3);
    assert_eq!(ranking[0].name, "Player3");
    assert_eq!(ranking[0].kills, 9);
    assert_eq!(ranking[1].name, "Player1");
    assert_eq!(ranking[1].kills, 7);
    assert_eq!(ranking[2].name, "Player2");
    assert_eq!(ranking[2].kills, -4);
}

#[test]
fn classify_is_pure_and_ordered() {
    let kill = "6:43 Kill: 4 2 6: Dono da Bola killed Isgalamido by MOD_ROCKET";
    let init = "6:34 InitGame: \\capturelimit\\8";
    let info = "6:34 ClientUserinfoChanged: 2 n\\Isgalamido\\t\\0";
    let other = "20:37 ShutdownGame:";
    assert_eq!(classify_line(kill), LineKind::KillEvent);
    assert_eq!(classify_line(init), LineKind::MatchStart);
    assert_eq!(classify_line(info), LineKind::PlayerInfoChanged);
    assert_eq!(classify_line(other), LineKind::Other);
    // reclassifying the same text always yields the same tag
    assert_eq!(classify_line(kill), classify_line(kill));
    assert_eq!(classify_line(init), classify_line(init));
    // a match-start marker wins over everything else on the same line
    let both = "1:00 InitGame: Kill: ClientUserinfoChanged";
    assert_eq!(classify_line(both), LineKind::MatchStart);
}

#[test]
fn kill_conservation_players_only() {
    // with no world kills, the net kill sum equals total_kills
    let content = "0:00 InitGame: x\n\
                   0:01 ClientUserinfoChanged: 2 n\\Ana\\t\\0\n\
                   0:02 ClientUserinfoChanged: 3 n\\Bob\\t\\0\n\
                   0:03 Kill: 2 3 7: Ana killed Bob by MOD_RAILGUN\n\
                   0:04 Kill: 2 3 7: Ana killed Bob by MOD_RAILGUN\n\
                   0:05 Kill: 3 2 7: Bob killed Ana by MOD_SHOTGUN\n";
    let mut matches: Vec<Match> = Vec::new();
    assert!(process_events_matches(&mut matches, content).is_ok());
    let d = &matches[0].data;
    let sum: i32 = d.kills.iter().map(|e| e.1).sum();
    assert_eq!(sum, d.total_kills);
    assert_eq!(d.total_kills, 3);
}

#[test]
fn kill_conservation_with_world_kills() {
    // each world kill adds one to total_kills but minus one to the sum
    let content = "0:00 InitGame: x\n\
                   0:01 ClientUserinfoChanged: 2 n\\Ana\\t\\0\n\
                   0:02 ClientUserinfoChanged: 3 n\\Bob\\t\\0\n\
                   0:03 Kill: 2 3 7: Ana killed Bob by MOD_RAILGUN\n\
                   0:04 Kill: 1022 3 22: <world> killed Bob by MOD_LAVA\n\
                   0:05 Kill: 1022 3 22: <world> killed Ana by MOD_SLIME\n";
    let mut matches: Vec<Match> = Vec::new();
    assert!(process_events_matches(&mut matches, content).is_ok());
    let d = &matches[0].data;
    let sum: i32 = d.kills.iter().map(|e| e.1).sum();
    assert_eq!(d.total_kills, 3);
    // sum = total_kills - 2 * world_kills = 3 - 4
    assert_eq!(sum, -1);
    assert_eq!(d.means_count("MOD_LAVA"), Some(1));
    assert_eq!(d.means_count("MOD_SLIME"), Some(1));
    assert_eq!(d.means_count("MOD_RAILGUN"), Some(1));
}

#[test]
fn ranking_deterministic_and_reorder_totals() {
    let build = |flip: bool| {
        let mut m1 = MatchData::default();
        m1.kills.push(("Ana".to_string(), 4));
        m1.kills.push(("Bob".to_string(), 1));
        let mut m2 = MatchData::default();
        m2.kills.push(("Bob".to_string(), 2));
        m2.kills.push(("Cid".to_string(), 7));
        let mut matches = Vec::new();
        if flip {
            matches.push(Match { id: 1, data: m2 });
            matches.push(Match { id: 2, data: m1 });
        } else {
            matches.push(Match { id: 1, data: m1 });
            matches.push(Match { id: 2, data: m2 });
        }
        let mut ranking = Vec::new();
        process_ranking(&mut matches, &mut ranking);
        ranking
    };
    let a = build(false);
    let b = build(false);
    // the same ordered match list always gives the same ordered output
    assert_eq!(a.len(), b.len());
    for i in 0..a.len() {
        assert_eq!(a[i].name, b[i].name);
        assert_eq!(a[i].kills, b[i].kills);
    }
    // reordering the matches keeps every total
    let c = build(true);
    for p in &a {
        let total = c.iter().find(|q| q.name == p.name).map(|q| q.kills);
        assert_eq!(total, Some(p.kills));
    }
    // and the output is descending by kills
    assert_eq!(a[0].kills, 7);
    assert_eq!(a[1].kills, 4);
    assert_eq!(a[2].kills, 3);
}

#[test]
fn validator_accepts_exactly_the_closed_set() {
    assert_eq!(MeansOfDeath::from_str("MOD_ROCKET"), Some(MeansOfDeath::ModRocket));
    assert_eq!(
        MeansOfDeath::from_str("MOD_ROCKET_SPLASH"),
        Some(MeansOfDeath::ModRocketSplash)
    );
    assert_eq!(MeansOfDeath::from_str("MOD_TRIGGER_HURT"), Some(MeansOfDeath::ModTriggerHurt));
    assert_eq!(MeansOfDeath::from_str("MOD_UNKNOWN"), Some(MeansOfDeath::ModUnknown));
    assert_eq!(MeansOfDeath::from_str("MOD_GRAPPLE"), Some(MeansOfDeath::ModGrapple));
    assert_eq!(MeansOfDeath::from_str("MOD_BANANA"), None);
    assert_eq!(MeansOfDeath::from_str("mod_rocket"), None);
    assert_eq!(MeansOfDeath::from_str(""), None);
    // an unknown token propagates as an error through kill processing
    let mut game = MatchData::default();
    game.players.push("Ana".to_owned());
    let line = "0:03 Kill: 2 3 7: Ana killed Bob by MOD_BANANA";
    let result = process_kill_line(line, &mut game);
    assert!(matches!(result, Err(LogError::InsertKillMeanError(_))));
    // the killer's count keeps the update made before the rejection
    assert_eq!(game.kill_count("Ana"), Some(1));
    // but the line did not count
    assert_eq!(game.total_kills, 0);
}

#[test]
fn events_before_first_match_are_dropped() {
    // kill and player-info events with no open match are ignored
    let content = "0:00 Kill: 2 3 7: Ana killed Bob by MOD_RAILGUN\n\
                   0:01 ClientUserinfoChanged: 2 n\\Ana\\t\\0\n\
                   0:02 InitGame: x\n\
                   0:03 ClientUserinfoChanged: 2 n\\Ana\\t\\0\n";
    let mut matches: Vec<Match> = Vec::new();
    let result = process_events_matches(&mut matches, content);
    assert!(result.is_ok());
    assert_eq!(matches.len(), 1);
    assert_eq!(matches[0].data.players.len(), 1);
    assert_eq!(matches[0].data.total_kills, 0);
}

#[test]
fn empty_log_gives_no_matches() {
    let mut matches: Vec<Match> = Vec::new();
    assert!(process_events_matches(&mut matches, "").is_ok());
    assert_eq!(matches.len(), 0);
}

#[test]
fn error_variants_and_wrapped_messages() {
    // an unresolved killer halts the run with the wrapped kill error
    let content = "0:00 InitGame: x\n0:03 Kill: 2 3 7: Ana killed Bob by MOD_RAILGUN\n";
    let mut matches: Vec<Match> = Vec::new();
    let result = process_events_matches(&mut matches, content);
    assert_eq!(
        result.err(),
        Some(LogError::KillError(
            "Error KillerName(\"Unable to find the Killer Name\") on line  0:03 Kill: 2 3 7: Ana killed Bob by MOD_RAILGUN"
                .to_string()
        ))
    );

    // an unresolved world victim
    let mut game = MatchData::default();
    let result = parse_world_kill("x <world> killed Ana by MOD_LAVA", &mut game);
    assert_eq!(
        result.err(),
        Some(LogError::VictimName("Unable to find the Victim Name".to_string()))
    );

    // an unresolved killer
    let result = parse_player_kill("x Ana killed Bob", &mut game);
    assert_eq!(
        result.err(),
        Some(LogError::KillerName("Unable to find the Killer Name".to_string()))
    );

    // an empty extracted player name
    let result = process_client_changed_line("0:01 ClientUserinfoChanged: 2 n\\\\t\\0", &mut game);
    assert_eq!(
        result.err(),
        Some(LogError::EmptyPlayerName("Empty player name in the client changed line.".to_string()))
    );

    // a player-info line without its anchors
    let result = process_client_changed_line("0:01 ClientUserinfoChanged: nothing", &mut game);
    assert_eq!(
        result.err(),
        Some(LogError::ClientUserinfoChangedError(
            "Player name anchors not found in the client changed line.".to_string()
        ))
    );

    // a line of pure whitespace has no death-cause token
    let result = insert_kills_by_means("   ", &mut game);
    assert_eq!(
        result.err(),
        Some(LogError::InsertKillMeanError("Unable to extract the mean from line:    ".to_string()))
    );
}

#[test]
fn process_log_runs_the_whole_pipeline() {
    let result = LogModel::process_log(LOG_DATA);
    assert!(result.is_ok());
    let (matches, ranking) = result.unwrap();
    assert_eq!(matches.len(), 1);
    assert_eq!(matches[0].id, 1);
    assert_eq!(ranking.len(), 6);
    // the fixture's top totals: Oootsimo 3, then the 2-kill tie
    assert_eq!(ranking[0].name, "Oootsimo");
    assert_eq!(ranking[0].kills, 3);
    // the 2-kill tie keeps first-attribution order: Dono da Bola, then Zeh
    assert_eq!(ranking[1].name, "Dono da Bola");
    assert_eq!(ranking[1].kills, 2);
    assert_eq!(ranking[2].name, "Zeh");
    assert_eq!(ranking[2].kills, 2);
    assert_eq!(ranking[5].name, "Isgalamido");
    assert_eq!(ranking[5].kills, -1);
}

#[test]
fn lines_split_like_the_standard_library() {
    for s in [
        "a\r\nb\nc\r",
        "one line",
        "\n\n",
        "trailing\n",
        "a\rb\nc",
        "",
    ] {
        let got = quake_log_parse::text::lines_of(s);
        let want: Vec<&str> = s.lines().collect();
        assert_eq!(got.len(), want.len());
        for i in 0..got.len() {
            assert_eq!(got[i], want[i]);
        }
    }
}

#[test]
fn text_scanners_match_the_standard_library() {
    let s = "  one\ttwo   three  ";
    assert_eq!(quake_log_parse::text::last_token_of(s), s.split_whitespace().last());
    assert_eq!(quake_log_parse::text::last_token_of("   "), None);
    assert_eq!(quake_log_parse::text::last_token_of("word"), Some("word"));
    let h = "abcabc";
    assert_eq!(quake_log_parse::text::str_index_of(h, "cab"), h.find("cab"));
    assert_eq!(quake_log_parse::text::str_index_of(h, "abc"), Some(0));
    assert_eq!(quake_log_parse::text::str_index_of(h, "zz"), None);
    assert!(quake_log_parse::text::str_contains(h, "bca"));
    assert!(!quake_log_parse::text::str_contains(h, "ac"));
}

#[test]
fn two_matches_accumulate_across_the_log() {
    let content = "0:00 InitGame: x\n\
                   0:01 ClientUserinfoChanged: 2 n\\Ana\\t\\0\n\
                   0:02 ClientUserinfoChanged: 3 n\\Bob\\t\\0\n\
                   0:03 Kill: 2 3 7: Ana killed Bob by MOD_RAILGUN\n\
                   1:00 InitGame: x\n\
                   1:01 ClientUserinfoChanged: 2 n\\Ana\\t\\0\n\
                   1:03 Kill: 1022 2 22: <world> killed Ana by MOD_LAVA\n";
    let (matches, ranking) = LogModel::process_log(content).unwrap();
    assert_eq!(matches.len(), 2);
    assert_eq!(matches[0].id, 1);
    assert_eq!(matches[1].id, 2);
    assert_eq!(matches[0].data.total_kills, 1);
    assert_eq!(matches[1].data.total_kills, 1);
    // Ana gained one kill in the first match and lost one to the world
    // in the second; Bob, only ever a victim of a player, has no slot
    assert_eq!(ranking.len(), 1);
    assert_eq!(ranking[0].name, "Ana");
    assert_eq!(ranking[0].kills, 0);
}

#[test]
fn process_log_halts_on_a_malformed_line() {
    let content = "0:00 InitGame: x\n\
                   0:01 ClientUserinfoChanged: 2 n\\Ana\\t\\0\n\
                   0:03 Kill: 2 3 7: Ana killed Bob by MOD_BANANA\n";
    let result = LogModel::process_log(content);
    assert!(matches!(result, Err(LogError::KillError(_))));
}

#[test]
fn player_info_line_updates_players_once() {
    let mut game = MatchData::default();
    let line = "6:34 ClientUserinfoChanged: 2 n\\Isgalamido\\t\\0\\model\\uriel/zael";
    assert!(process_client_changed_line(line, &mut game).is_ok());
    assert!(process_client_changed_line(line, &mut game).is_ok());
    assert_eq!(game.players.len(), 1);
    assert!(game.has_player("Isgalamido"));
    assert!(!game.has_player("Zeh"));
}
