<div id="memo-{{ id }}" class="p-3 lg:p-4 bg-card rounded-xl border border-border shadow-sm hover:shadow-md transition-shadow group/memo">
<div class="memo-display">
<div class="flex items-center gap-2 mb-2">
<div class="flex items-center gap-1.5 min-w-0">
<span class="text-sm font-medium text-foreground truncate">{{ username|default("") }}</span>
<span class="text-xs text-muted-fg whitespace-nowrap">· <span class="relative-time" data-time="{{ created_at }}">{{ created_at_relative|default(created_at) }}</span></span>
{% if visibility == 'public' %}
<span class="text-xs text-green-600 dark:text-green-400 select-none" title="Public">
<svg class="w-3.5 h-3.5 inline" fill="none" stroke="currentColor" viewBox="0 0 24 24"><path stroke-linecap="round" stroke-linejoin="round" stroke-width="2" d="M3.055 11H5a2 2 0 012 2v1a2 2 0 002 2 2 2 0 012 2v2.945M8 3.935V5.5A2.5 2.5 0 0010.5 8h.5a2 2 0 012 2 2 2 0 104 0 2 2 0 012-2h1.064M15 20.488V18a2 2 0 012-2h3.064M21 12a9 9 0 11-18 0 9 9 0 0118 0z"/></svg>
</span>
{% elif visibility == 'protected' %}
<span class="text-xs text-amber-600 dark:text-amber-400 select-none" title="Protected">
<svg class="w-3.5 h-3.5 inline" fill="none" stroke="currentColor" viewBox="0 0 24 24"><rect x="3" y="11" width="18" height="11" rx="2" stroke-width="2"/><path d="M7 11V7a5 5 0 0110 0v4" stroke-width="2"/></svg>
</span>
{% endif %}
</div>
<div class="ml-auto flex items-center gap-1 opacity-100 lg:opacity-0 lg:group-hover/memo:opacity-100 transition-opacity">
<button onclick="shareNote({{ id }}, '{{ visibility }}')"
class="p-1 rounded-md text-muted-fg hover:text-accent-500 hover:bg-accent-50 dark:hover:bg-accent-900/20 transition-colors" title="Share">
<svg class="w-3.5 h-3.5" fill="none" stroke="currentColor" viewBox="0 0 24 24">
<path stroke-linecap="round" stroke-linejoin="round" stroke-width="2" d="M8.684 13.342C8.886 12.938 9 12.482 9 12c0-.482-.114-.938-.316-1.342m0 2.684a3 3 0 110-2.684m0 2.684l6.632 3.316m-6.632-6l6.632-3.316m0 0a3 3 0 105.367-2.684 3 3 0 00-5.367 2.684zm0 9.316a3 3 0 105.368 2.684 3 3 0 00-5.368-2.684z"/></svg>
</button>
<button onclick="editMemo({{ id }})"
class="p-1 rounded-md text-muted-fg hover:text-foreground hover:bg-muted transition-colors" title="Edit">
<svg class="w-3.5 h-3.5" fill="none" stroke="currentColor" viewBox="0 0 24 24">
<path stroke-linecap="round" stroke-linejoin="round" stroke-width="2" d="M11 5H6a2 2 0 00-2 2v11a2 2 0 002 2h11a2 2 0 002-2v-5m-1.414-9.414a2 2 0 112.828 2.828L11.828 15H9v-2.828l8.586-8.586z"/>
</svg>
</button>
<button onclick="deleteMemo({{ id }})"
class="p-1 rounded-md text-muted-fg hover:text-red-500 hover:bg-red-50 dark:hover:bg-red-900/20 transition-colors" title="Delete">
<svg class="w-3.5 h-3.5" fill="none" stroke="currentColor" viewBox="0 0 24 24"><path stroke-linecap="round" stroke-linejoin="round" stroke-width="2" d="M19 7l-.867 12.142A2 2 0 0116.138 21H7.862a2 2 0 01-1.995-1.858L5 7m5 4v6m4-6v6m1-10V4a1 1 0 00-1-1h-4a1 1 0 00-1 1v3M4 7h16"/></svg>
</button>
</div>
</div>
<div class="memo-content text-foreground text-[15px] leading-relaxed">{{ content_html|safe }}</div>
{% if tags and tags|length > 0 %}
<div class="flex flex-wrap gap-1 mt-2">
{% for tag in tags %}
<span class="inline-block px-1.5 py-0.5 text-[10px] font-medium rounded bg-accent-50 dark:bg-accent-900/20 text-accent-600 dark:text-accent-500">
#{{ tag }}
</span>
{% endfor %}
</div>
{% endif %}
</div>
<div class="memo-edit hidden" id="memo-edit-{{ id }}"></div>
</div>