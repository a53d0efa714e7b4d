//! What the shell is told: completion scripts, and how a build is started.

use vstd::prelude::*;

use crate::text::{same_text, texts};

verus! {

/// The completion script for `bash`.
pub const BASH_COMPLETION: &'static str = r#"_rpool() {
    local cur prev words cword
    _init_completion || return

    local subcmd="" pool_arg=""
    local i
    for ((i=1; i < cword; i++)); do
        case "${words[i]}" in
            -p|--pool) pool_arg="${words[$((i+1))]}"; ((i++)) ;;
            -*) ;;
            *) [[ -z "$subcmd" ]] && subcmd="${words[i]}" ;;
        esac
    done

    if [[ "$prev" == "-p" || "$prev" == "--pool" ]]; then
        COMPREPLY=($(compgen -W "$(rpool complete pools 2>/dev/null)" -- "$cur"))
        return
    fi

    if [[ "$cur" == -* ]]; then
        local flags="-p --pool"
        case "$subcmd" in
            init)        flags="$flags -r --repo --clones-root -n --name --build-cmd" ;;
            checkout|ck) flags="$flags --no-submodules" ;;
            migrate)     flags="$flags --keep --clones-root" ;;
            doctor)      flags="$flags --fix" ;;
        esac
        COMPREPLY=($(compgen -W "$flags" -- "$cur"))
        return
    fi

    if [[ -z "$subcmd" ]]; then
        COMPREPLY=($(compgen -W "init checkout ck status st drop pr sync new pools rm-pool build cd migrate pin unpin doctor completions" -- "$cur"))
        return
    fi

    local -a pool_flag=()
    [[ -n "$pool_arg" ]] && pool_flag=(-p "$pool_arg")

    case "$subcmd" in
        checkout|ck) COMPREPLY=($(compgen -W "$(rpool "${pool_flag[@]}" complete branches 2>/dev/null)" -- "$cur")) ;;
        cd)          COMPREPLY=($(compgen -W "$(rpool complete clones 2>/dev/null)" -- "$cur")) ;;
        drop)        COMPREPLY=($(compgen -W "$(rpool "${pool_flag[@]}" complete clones 2>/dev/null)" -- "$cur")) ;;
        pin)         COMPREPLY=($(compgen -W "$(rpool "${pool_flag[@]}" complete clones 2>/dev/null)" -- "$cur")) ;;
        unpin)       COMPREPLY=($(compgen -W "$(rpool "${pool_flag[@]}" complete clones 2>/dev/null)" -- "$cur")) ;;
        rm-pool)     COMPREPLY=($(compgen -W "$(rpool complete pools 2>/dev/null)" -- "$cur")) ;;
        completions) COMPREPLY=($(compgen -W "bash zsh fish" -- "$cur")) ;;
    esac
}
complete -F _rpool rpool
complete -F _rpool rp
"#;

/// The completion script for `zsh`.
pub const ZSH_COMPLETION: &'static str = r#"#compdef rpool rp

_rpool() {
    local -a subcmds
    subcmds=(
        'init:Initialize a pool for a repository'
        'checkout:Checkout a branch'
        'status:Show pool status'
        'drop:Unassign a clone'
        'pr:Checkout a PR by number'
        'sync:Fetch all remotes'
        'new:Add a new clone'
        'pools:List available pools'
        'rm-pool:Remove a pool'
        'build:Run build command'
        'cd:Navigate to a clone'
        'migrate:Migrate clones to structured directory'
        'pin:Pin a clone to deprioritize it for assignment'
        'unpin:Unpin a clone for free assignment'
        'doctor:Diagnose and fix state inconsistencies'
        'completions:Generate shell completions'
    )

    local pool_flag=""
    local -i i
    for ((i=1; i < CURRENT; i++)); do
        case "${words[i]}" in
            -p|--pool) pool_flag="-p ${words[$((i+1))]}" ;;
        esac
    done

    _arguments -C \
        '(-p --pool)'{-p,--pool}'[Pool name]:pool:->pool_arg' \
        '1:command:->subcmd' \
        '*::arg:->args'

    case $state in
        pool_arg)
            local -a pools
            pools=(${(f)"$(rpool complete pools 2>/dev/null)"})
            compadd -a pools
            ;;
        subcmd)
            _describe 'command' subcmds
            ;;
        args)
            if [[ ${words[CURRENT-1]} == (-p|--pool) ]]; then
                local -a pools
                pools=(${(f)"$(rpool complete pools 2>/dev/null)"})
                compadd -a pools
                return
            fi
            if [[ ${words[CURRENT]} == -* ]]; then
                local -a flags
                flags=(-p --pool)
                case ${words[1]} in
                    init) flags+=(-r --repo --clones-root -n --name --build-cmd) ;;
                    checkout|ck) flags+=(--no-submodules) ;;
                    migrate) flags+=(--keep --clones-root) ;;
                    doctor) flags+=(--fix) ;;
                esac
                compadd -a flags
                return
            fi
            case ${words[1]} in
                checkout|ck)
                    local -a branches
                    branches=(${(f)"$(rpool ${=pool_flag} complete branches 2>/dev/null)"})
                    compadd -a branches
                    ;;
                cd)
                    local -a clones
                    clones=(${(f)"$(rpool complete clones 2>/dev/null)"})
                    compadd -a clones
                    ;;
                drop|pin|unpin)
                    local -a clones
                    clones=(${(f)"$(rpool ${=pool_flag} complete clones 2>/dev/null)"})
                    compadd -a clones
                    ;;
                rm-pool)
                    local -a pools
                    pools=(${(f)"$(rpool complete pools 2>/dev/null)"})
                    compadd -a pools
                    ;;
                completions)
                    compadd bash zsh fish
                    ;;
            esac
            ;;
    esac
}

_rpool "$@"
"#;

/// The completion script for `fish`.
pub const FISH_COMPLETION: &'static str = r#"# Completions for rpool and rp

function __rpool_subcmd
    set -l words (commandline -opc)
    set -e words[1]
    set -l skip 0
    for word in $words
        if test $skip -eq 1
            set skip 0
            continue
        end
        switch $word
            case -p --pool
                set skip 1
            case '-*'
                continue
            case '*'
                echo $word
                return 0
        end
    end
    return 1
end

function __rpool_no_subcmd
    not __rpool_subcmd >/dev/null
end

function __rpool_using
    set -l subcmd (__rpool_subcmd)
    or return 1
    contains -- $subcmd $argv
end

function __rpool_pool
    set -l words (commandline -opc)
    set -l pool
    set -l take 0
    for word in $words
        if test $take -eq 1
            set take 0
            set pool $word
            continue
        end
        switch $word
            case -p --pool
                set take 1
        end
    end
    if set -q pool[1]
        echo $pool
    end
end

function __rpool_candidates
    set -l pool (__rpool_pool)
    if set -q pool[1]
        rpool -p $pool complete $argv[1] 2>/dev/null
    else
        rpool complete $argv[1] 2>/dev/null
    end
end

for cmd in rpool rp
    complete -c $cmd -f
    complete -c $cmd -s p -l pool -x -a '(rpool complete pools 2>/dev/null)' -d 'Pool name'

    complete -c $cmd -n __rpool_no_subcmd -a init -d 'Initialize a pool for a repository'
    complete -c $cmd -n __rpool_no_subcmd -a 'checkout ck' -d 'Checkout a branch'
    complete -c $cmd -n __rpool_no_subcmd -a 'status st' -d 'Show pool status'
    complete -c $cmd -n __rpool_no_subcmd -a drop -d 'Unassign a clone'
    complete -c $cmd -n __rpool_no_subcmd -a pr -d 'Checkout a PR by number'
    complete -c $cmd -n __rpool_no_subcmd -a sync -d 'Fetch all remotes'
    complete -c $cmd -n __rpool_no_subcmd -a new -d 'Add a new clone'
    complete -c $cmd -n __rpool_no_subcmd -a pools -d 'List available pools'
    complete -c $cmd -n __rpool_no_subcmd -a rm-pool -d 'Remove a pool'
    complete -c $cmd -n __rpool_no_subcmd -a build -d 'Run build command'
    complete -c $cmd -n __rpool_no_subcmd -a cd -d 'Navigate to a clone'
    complete -c $cmd -n __rpool_no_subcmd -a migrate -d 'Migrate clones to structured directory'
    complete -c $cmd -n __rpool_no_subcmd -a pin -d 'Pin a clone to deprioritize it for assignment'
    complete -c $cmd -n __rpool_no_subcmd -a unpin -d 'Unpin a clone for free assignment'
    complete -c $cmd -n __rpool_no_subcmd -a doctor -d 'Diagnose and fix state inconsistencies'
    complete -c $cmd -n __rpool_no_subcmd -a completions -d 'Generate shell completions'

    complete -c $cmd -n '__rpool_using init' -s r -l repo -x -d 'Repository URL or path'
    complete -c $cmd -n '__rpool_using init' -l clones-root -x -a '(__fish_complete_directories)' -d 'Root directory for clones'
    complete -c $cmd -n '__rpool_using init' -s n -l name -x -d 'Pool name'
    complete -c $cmd -n '__rpool_using init' -l build-cmd -x -d 'Build command'
    complete -c $cmd -n '__rpool_using checkout ck' -l no-submodules -d 'Do not update submodules'
    complete -c $cmd -n '__rpool_using migrate' -l keep -x -a '(rpool complete clones 2>/dev/null)' -d 'Clone to keep in place'
    complete -c $cmd -n '__rpool_using migrate' -l clones-root -x -a '(__fish_complete_directories)' -d 'Root directory for clones'
    complete -c $cmd -n '__rpool_using doctor' -l fix -d 'Fix what can be fixed'

    complete -c $cmd -n '__rpool_using checkout ck' -a '(__rpool_candidates branches)'
    complete -c $cmd -n '__rpool_using cd' -a '(rpool complete clones 2>/dev/null)'
    complete -c $cmd -n '__rpool_using drop pin unpin' -a '(__rpool_candidates clones)'
    complete -c $cmd -n '__rpool_using rm-pool' -a '(rpool complete pools 2>/dev/null)'
    complete -c $cmd -n '__rpool_using completions' -a 'bash zsh fish'
end
"#;

/// The completion script for `bash`.
pub fn bash_completion_script() -> (r: &'static str)
    ensures
        r@ == BASH_COMPLETION@,
{
    BASH_COMPLETION
}

/// The completion script for `zsh`.
pub fn zsh_completion_script() -> (r: &'static str)
    ensures
        r@ == ZSH_COMPLETION@,
{
    ZSH_COMPLETION
}

/// The completion script for `fish`.
pub fn fish_completion_script() -> (r: &'static str)
    ensures
        r@ == FISH_COMPLETION@,
{
    FISH_COMPLETION
}

/// The completion script for a shell, or why there is none.
pub open spec fn completion_of(shell: Seq<char>) -> Result<Seq<char>, Seq<char>> {
    if shell == "bash"@ {
        Ok(BASH_COMPLETION@)
    } else if shell == "zsh"@ {
        Ok(ZSH_COMPLETION@)
    } else if shell == "fish"@ {
        Ok(FISH_COMPLETION@)
    } else {
        Err("Unknown shell '"@ + shell + "'. Supported: bash, zsh, fish"@)
    }
}

/// The completion script for a shell.
pub fn completions(shell: &str) -> (r: Result<&'static str, String>)
    ensures
        r matches Ok(script) ==> completion_of(shell@) == Ok::<Seq<char>, Seq<char>>(script@),
        r matches Err(e) ==> completion_of(shell@) == Err::<Seq<char>, Seq<char>>(e@),
{
    if same_text(shell, "bash") {
        Ok(bash_completion_script())
    } else if same_text(shell, "zsh") {
        Ok(zsh_completion_script())
    } else if same_text(shell, "fish") {
        Ok(fish_completion_script())
    } else {
        let mut e = "Unknown shell '".to_owned();
        e.append(shell);
        e.append("'. Supported: bash, zsh, fish");
        Err(e)
    }
}

/// The program that runs a command line, and its arguments.
pub open spec fn shell_words(windows: bool, command: Seq<char>) -> Seq<Seq<char>> {
    if windows {
        seq!["cmd"@, "/C"@, command]
    } else {
        seq!["sh"@, "-c"@, command]
    }
}

/// The program that runs a command line, and its arguments.
pub fn shell_command(windows: bool, command: &str) -> (r: Vec<String>)
    ensures
        texts(r@) == shell_words(windows, command@),
{
    let r = if windows {
        vec!["cmd".to_owned(), "/C".to_owned(), command.to_owned()]
    } else {
        vec!["sh".to_owned(), "-c".to_owned(), command.to_owned()]
    };
    assert(texts(r@) =~= shell_words(windows, command@));
    r
}

/// Every command line is handed to the shell whole, as the one argument after the flag
/// that has the shell run it.
pub proof fn law_shell_words(command: Seq<char>)
    ensures
        shell_words(false, command) == seq!["sh"@, "-c"@, command],
        shell_words(true, command) == seq!["cmd"@, "/C"@, command],
{
}

/// A shell has a script if and only if it is one of the three, and any other is refused by
/// its name.
pub proof fn law_supported_shells(shell: Seq<char>)
    ensures
        completion_of(shell) is Ok <==> shell == "bash"@ || shell == "zsh"@ || shell == "fish"@,
        completion_of("bash"@) == Ok::<Seq<char>, Seq<char>>(BASH_COMPLETION@),
        completion_of("zsh"@) == Ok::<Seq<char>, Seq<char>>(ZSH_COMPLETION@),
        completion_of("fish"@) == Ok::<Seq<char>, Seq<char>>(FISH_COMPLETION@),
        completion_of(shell) is Err ==> completion_of(shell)->Err_0 == "Unknown shell '"@ + shell
            + "'. Supported: bash, zsh, fish"@,
{
    reveal_strlit("bash");
    reveal_strlit("zsh");
    reveal_strlit("fish");
    assert("bash"@[0] == 'b' && "zsh"@[0] == 'z' && "fish"@[0] == 'f');
}

} // verus!
